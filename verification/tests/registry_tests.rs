use dirmon::registry::ExtensionRegistry;

fn chars(s: &str) -> Vec<char> {
    s.chars().collect()
}

fn ext_lists(reg: &ExtensionRegistry) -> Vec<(Vec<char>, Vec<Vec<char>>)> {
    reg.entries().iter().map(|e| (e.label.clone(), e.extensions.clone())).collect()
}

#[test]
fn upsert_then_lookup_returns_split() {
    let mut reg = ExtensionRegistry::new();
    reg.upsert(&chars("Video"), &chars("mp4,"));
    let found = reg.lookup(&chars("Video")).expect("label must be present after upsert");
    assert_eq!(found, &vec![chars("mp4"), chars("")]);
}

#[test]
fn upsert_empty_text_keeps_one_empty_piece() {
    let mut reg = ExtensionRegistry::new();
    reg.upsert(&chars("X"), &chars(""));
    assert_eq!(reg.lookup(&chars("X")), Some(&vec![chars("")]));
}

#[test]
fn upsert_keeps_inner_empty_pieces() {
    let mut reg = ExtensionRegistry::new();
    reg.upsert(&chars("Y"), &chars("a,,b"));
    assert_eq!(reg.lookup(&chars("Y")), Some(&vec![chars("a"), chars(""), chars("b")]));
}

#[test]
fn upsert_empty_label_is_a_valid_key() {
    let mut reg = ExtensionRegistry::new();
    reg.upsert(&chars(""), &chars("txt"));
    assert_eq!(reg.len(), 1);
    assert_eq!(reg.lookup(&chars("")), Some(&vec![chars("txt")]));
}

#[test]
fn upsert_overwrites_existing_label() {
    let mut reg = ExtensionRegistry::new();
    reg.upsert(&chars("Audio"), &chars("mp3,wav"));
    reg.upsert(&chars("Audio"), &chars("flac"));
    assert_eq!(reg.len(), 1);
    assert_eq!(reg.lookup(&chars("Audio")), Some(&vec![chars("flac")]));
}

#[test]
fn lookup_missing_label_is_none() {
    let mut reg = ExtensionRegistry::new();
    reg.upsert(&chars("Audio"), &chars("mp3"));
    assert_eq!(reg.lookup(&chars("Video")), None);
}

#[test]
fn entries_stay_sorted_by_label() {
    let mut reg = ExtensionRegistry::new();
    reg.upsert(&chars("Video"), &chars("mp4"));
    reg.upsert(&chars("Audio"), &chars("mp3"));
    reg.upsert(&chars("Text"), &chars("txt"));
    let listed = ext_lists(&reg);
    assert_eq!(listed.len(), 3);
    assert_eq!(listed[0].0, chars("Audio"));
    assert_eq!(listed[1].0, chars("Text"));
    assert_eq!(listed[2].0, chars("Video"));
}

#[test]
fn remove_highest_removes_lexicographically_maximal_key() {
    let mut reg = ExtensionRegistry::new();
    reg.upsert(&chars("Zeta"), &chars("z"));
    reg.upsert(&chars("Audio"), &chars("mp3,wav"));
    reg.upsert(&chars("Video"), &chars("mp4"));
    reg.remove_highest_key();
    assert_eq!(reg.len(), 2);
    assert_eq!(reg.lookup(&chars("Zeta")), None);
    assert!(reg.lookup(&chars("Audio")).is_some());
    assert!(reg.lookup(&chars("Video")).is_some());
}

#[test]
fn remove_highest_on_empty_registry_is_a_noop() {
    let mut reg = ExtensionRegistry::new();
    reg.remove_highest_key();
    assert_eq!(reg.len(), 0);
}
