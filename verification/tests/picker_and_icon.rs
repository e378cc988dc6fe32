use baras::initials::{icon_shown, on_icon_request, IconShown, IconStep};
use baras::lexer::tokenize;
use baras::parser::Parser;
use baras::sound_path::{choose_definitions_dir, first_found, pick_found, DefinitionsDir};
use std::path::PathBuf;
use baras::sound_picker::{
    accepts_picked_file, category_index, custom_option, selection_event, sound_options, SoundCategory,
};

fn category(folder: &str, files: &[&str]) -> SoundCategory {
    SoundCategory {
        name: folder.to_string(),
        folder: folder.to_string(),
        files: files.iter().map(|f| f.to_string()).collect(),
    }
}

fn listed(cat: &SoundCategory, search: &str, current: &str) -> Vec<(String, bool)> {
    sound_options(cat, search, current)
        .into_iter()
        .map(|o| {
            assert!(o.value.ends_with(&o.name));
            (o.value, o.selected)
        })
        .collect()
}

#[test]
fn first_found_picks_first_true() {
    assert_eq!(first_found(&vec![]), None);
    assert_eq!(first_found(&vec![false, false]), None);
    assert_eq!(first_found(&vec![false, true, true]), Some(1));
    assert_eq!(first_found(&vec![true]), Some(0));
}

#[test]
fn options_filtered_by_search() {
    let mech = category("mechanic-sounds", &["Acid Deluge.mp3", "Beam.mp3", "Acid Rain.mp3"]);
    assert_eq!(
        listed(&mech, "", ""),
        vec![
            ("mechanic-sounds/Acid Deluge.mp3".to_string(), false),
            ("mechanic-sounds/Beam.mp3".to_string(), false),
            ("mechanic-sounds/Acid Rain.mp3".to_string(), false),
        ]
    );
    assert_eq!(
        listed(&mech, "ACID", ""),
        vec![
            ("mechanic-sounds/Acid Deluge.mp3".to_string(), false),
            ("mechanic-sounds/Acid Rain.mp3".to_string(), false),
        ]
    );
    assert_eq!(
        listed(&mech, "acid", "mechanic-sounds/Beam.mp3"),
        vec![
            ("mechanic-sounds/Acid Deluge.mp3".to_string(), false),
            ("mechanic-sounds/Beam.mp3".to_string(), true),
            ("mechanic-sounds/Acid Rain.mp3".to_string(), false),
        ]
    );
    let general = category("sounds", &["Alert.mp3", "Beep.mp3"]);
    assert_eq!(listed(&general, "zzz", "Beep.mp3"), vec![("sounds/Beep.mp3".to_string(), true)]);
    assert!(listed(&general, "zzz", "").is_empty());
}

#[test]
fn custom_entry_for_unlisted_value() {
    let general = category("sounds", &["Alert.mp3"]);
    assert!(!custom_option("", Some(&general)));
    assert!(!custom_option("sounds/Alert.mp3", Some(&general)));
    assert!(!custom_option("Alert.mp3", Some(&general)));
    assert!(custom_option("/home/u/x.mp3", Some(&general)));
    assert!(custom_option("sounds/Alert.mp3", None));
}

#[test]
fn selection_of_empty_entry_is_none() {
    assert_eq!(selection_event(""), None);
    assert_eq!(selection_event("sounds/Alert.mp3"), Some("sounds/Alert.mp3".to_string()));
}

#[test]
fn browse_takes_mp3_and_wav() {
    assert!(accepts_picked_file("/home/u/Boom.MP3"));
    assert!(accepts_picked_file("C:\\x\\a.Wav"));
    assert!(!accepts_picked_file("/home/u/a.ogg"));
    assert!(!accepts_picked_file("mp3"));
}

#[test]
fn icon_display_choice() {
    assert!(matches!(icon_shown(Some("u".to_string()), true, "Dark Ward"), IconShown::Image(ref u) if u == "u"));
    assert!(matches!(icon_shown(None, true, "dark ward"), IconShown::Initials(ref s) if s == "DW"));
    assert!(matches!(icon_shown(None, false, "dark ward"), IconShown::Placeholder));
    assert!(matches!(icon_shown(None, true, ""), IconShown::Nothing));
    assert!(matches!(icon_shown(None, false, ""), IconShown::Placeholder));
}

#[test]
fn icon_request_uses_cache() {
    assert!(matches!(on_icon_request(None), IconStep::Fetch));
    assert!(matches!(on_icon_request(Some(None)), IconStep::Show(None)));
    assert!(matches!(on_icon_request(Some(Some("u".to_string()))), IconStep::Show(Some(ref u)) if u == "u"));
}

#[test]
fn failed_primary_keeps_position() {
    let mut p = Parser { tokens: tokenize("x AND"), pos: 1 };
    assert!(p.parse_primary().is_none());
    assert_eq!(p.pos, 1);
    let mut p = Parser { tokens: tokenize("x"), pos: 1 };
    assert!(p.parse_primary().is_none());
    assert_eq!(p.pos, 1);
}

#[test]
fn pick_found_returns_first_existing_path() {
    let paths = vec![PathBuf::from("/u/a.mp3"), PathBuf::from("/b/sounds/a.mp3")];
    assert_eq!(pick_found(paths.clone(), &vec![false, true]), Some(PathBuf::from("/b/sounds/a.mp3")));
    assert_eq!(pick_found(paths.clone(), &vec![true]), Some(PathBuf::from("/u/a.mp3")));
    assert_eq!(pick_found(paths.clone(), &vec![false, false]), None);
    assert_eq!(pick_found(paths, &vec![]), None);
}

#[test]
fn definitions_dir_choice() {
    assert!(matches!(choose_definitions_dir(true, Some(true)), DefinitionsDir::Source));
    assert!(matches!(choose_definitions_dir(true, None), DefinitionsDir::Source));
    assert!(matches!(choose_definitions_dir(false, Some(true)), DefinitionsDir::Resource));
    assert!(matches!(choose_definitions_dir(false, Some(false)), DefinitionsDir::Source));
    assert!(matches!(choose_definitions_dir(false, None), DefinitionsDir::Source));
}

#[test]
fn category_index_reads_decimal() {
    assert_eq!(category_index("0"), Some(0));
    assert_eq!(category_index("12"), Some(12));
    assert_eq!(category_index("+3"), Some(3));
    assert_eq!(category_index(""), None);
    assert_eq!(category_index("+"), None);
    assert_eq!(category_index("-1"), None);
    assert_eq!(category_index("1a"), None);
    assert_eq!(category_index("99999999999999999999999"), None);
    for v in ["7", "+42", "007", "x", "", "18446744073709551615", "18446744073709551616"] {
        assert_eq!(category_index(v), v.parse::<usize>().ok());
    }
}
