use soul_memory_overlay::bundle::{
    config_candidates, helper_candidates, locate_config, locate_helper, user_config_folder,
    BundleCandidate, PathRoot, Probe,
};
use soul_memory_overlay::text::replace_nul;

fn sources(candidates: &[BundleCandidate]) -> Vec<String> {
    candidates.iter().map(|c| c.source.clone()).collect()
}

fn probes(shown: &[&str], present: &[bool]) -> Vec<Probe> {
    shown
        .iter()
        .zip(present)
        .map(|(s, p)| Probe { shown: s.to_string(), is_file: *p })
        .collect()
}

#[test]
fn helper_places_in_order() {
    let without = helper_candidates(false);
    assert_eq!(
        sources(&without),
        vec!["exe-dir", "legacy-obs-root-bin", "legacy-obs-root-data"]
    );
    assert_eq!(without[0].root, PathRoot::ExeDir);
    assert_eq!(without[0].segments, vec!["overlay-helper.exe"]);
    assert_eq!(
        without[2].segments,
        vec!["data", "obs-plugins", "soul-memory-obs-overlay", "overlay-helper.exe"]
    );

    let with = helper_candidates(true);
    assert_eq!(with.len(), 4);
    assert_eq!(with[3].root, PathRoot::ProgramData);
    assert_eq!(with[3].source, "programdata-plugin-bin");
    assert_eq!(
        with[3].segments,
        vec!["obs-studio", "plugins", "soul-memory-obs-overlay", "bin", "64bit", "overlay-helper.exe"]
    );
}

#[test]
fn config_places_in_order() {
    let all = config_candidates(true, true);
    assert_eq!(
        sources(&all),
        vec![
            "appdata-override",
            "helper-dir-config",
            "exe-dir-config",
            "legacy-obs-root-data-config",
            "programdata-plugin-data-config",
        ]
    );
    assert_eq!(all[0].root, PathRoot::AppData);
    assert_eq!(all[0].segments, vec!["soul-memory-obs-overlay", "config", "overlay.toml"]);
    assert_eq!(all[1].root, PathRoot::HelperDir);
    assert_eq!(all[1].segments, vec!["config", "overlay.toml"]);

    let bundled_only = config_candidates(false, false);
    assert_eq!(
        sources(&bundled_only),
        vec!["helper-dir-config", "exe-dir-config", "legacy-obs-root-data-config"]
    );
}

#[test]
fn first_present_place_wins() {
    let helpers = helper_candidates(false);
    let seen = probes(&["a", "b", "c"], &[false, true, true]);
    assert_eq!(locate_helper(&helpers, &seen), Ok(1));

    let configs = config_candidates(false, false);
    let seen = probes(&["x", "y", "z"], &[false, false, true]);
    assert_eq!(locate_config(&configs, &seen), Ok(2));
}

#[test]
fn missing_files_list_every_place() {
    let helpers = helper_candidates(false);
    let seen = probes(&["C:\\obs\\a.exe", "C:\\obs\\b.exe", "C:\\obs\\c.exe"], &[false, false, false]);
    assert_eq!(
        locate_helper(&helpers, &seen),
        Err("could not find bundled helper executable 'overlay-helper.exe': checked \
             C:\\obs\\a.exe [exe-dir], C:\\obs\\b.exe [legacy-obs-root-bin], \
             C:\\obs\\c.exe [legacy-obs-root-data]"
            .to_string())
    );

    let configs = config_candidates(false, false);
    let seen = probes(&["p", "q", "r"], &[false, false, false]);
    assert_eq!(
        locate_config(&configs, &seen),
        Err("could not find bundled config 'overlay.toml': checked p [helper-dir-config], \
             q [exe-dir-config], r [legacy-obs-root-data-config]"
            .to_string())
    );
}

#[test]
fn user_config_folder_below_app_data() {
    assert_eq!(user_config_folder(), vec!["soul-memory-obs-overlay", "config"]);
}

#[test]
fn nul_becomes_space() {
    assert_eq!(replace_nul("a\0b\0"), "a b ");
    assert_eq!(replace_nul("Soul Memory: 12"), "Soul Memory: 12");
    assert_eq!(replace_nul(""), "");
}

#[test]
fn user_config_takes_precedence() {
    let configs = config_candidates(true, true);
    let seen = probes(&["u", "h", "e", "l", "p"], &[true, true, true, true, true]);
    let found = locate_config(&configs, &seen).unwrap();
    assert_eq!(found, 0);
    assert_eq!(configs[found].source, "appdata-override");
    assert_eq!(configs[found].root, PathRoot::AppData);
}
