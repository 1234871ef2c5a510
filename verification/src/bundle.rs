//! Where the OBS source looks for the helper executable and its
//! configuration: the places, in the order they are tried, and the choice of
//! the first place that holds a file.
use vstd::prelude::*;

use crate::scan::{join_strings, joined, string_views};
use crate::text::string_of;

verus! {

/// The directory a place is written under.
#[derive(Clone, Copy, Debug, PartialEq, Eq, Structural)]
pub enum PathRoot {
    /// The directory of the running OBS executable.
    ExeDir,
    /// The directory the helper executable was found in.
    HelperDir,
    /// The directory that the `PROGRAMDATA` variable names.
    ProgramData,
    /// The directory that the `APPDATA` variable names.
    AppData,
}

/// A place where a bundled file may lie: a root, the path segments below it,
/// and a label that names the place in diagnostics.
pub struct BundleCandidate {
    pub root: PathRoot,
    pub segments: Vec<String>,
    pub source: String,
}

impl View for BundleCandidate {
    type V = (PathRoot, Seq<Seq<char>>, Seq<char>);

    open spec fn view(&self) -> Self::V {
        (self.root, string_views(self.segments@), self.source@)
    }
}

/// The views of a sequence of places.
pub open spec fn candidate_views(s: Seq<BundleCandidate>) -> Seq<(PathRoot, Seq<Seq<char>>, Seq<char>)> {
    s.map_values(|c: BundleCandidate| c@)
}

/// The folder that names the plugin below the OBS and user directories.
pub open spec fn module_folder() -> Seq<char> {
    "soul-memory-obs-overlay"@
}

/// The file name of the helper executable.
pub open spec fn helper_binary() -> Seq<char> {
    "overlay-helper.exe"@
}

/// The file name of the configuration.
pub open spec fn config_file() -> Seq<char> {
    "overlay.toml"@
}

/// The places of the helper executable, in the order they are tried; the
/// last one only where `PROGRAMDATA` is set.
pub open spec fn helper_places(program_data: bool) -> Seq<(PathRoot, Seq<Seq<char>>, Seq<char>)> {
    let fixed = seq![
        (PathRoot::ExeDir, seq![helper_binary()], "exe-dir"@),
        (PathRoot::ExeDir, seq!["obs-plugins"@, "64bit"@, helper_binary()], "legacy-obs-root-bin"@),
        (
            PathRoot::ExeDir,
            seq!["data"@, "obs-plugins"@, module_folder(), helper_binary()],
            "legacy-obs-root-data"@,
        ),
    ];
    if program_data {
        fixed.push(
            (
                PathRoot::ProgramData,
                seq!["obs-studio"@, "plugins"@, module_folder(), "bin"@, "64bit"@, helper_binary()],
                "programdata-plugin-bin"@,
            ),
        )
    } else {
        fixed
    }
}

/// The places of the configuration, in the order they are tried: the user's
/// own copy first where `APPDATA` is set, the plugin's data directory last
/// where `PROGRAMDATA` is set.
pub open spec fn config_places(app_data: bool, program_data: bool) -> Seq<(PathRoot, Seq<Seq<char>>, Seq<char>)> {
    let user = if app_data {
        seq![(PathRoot::AppData, seq![module_folder(), "config"@, config_file()], "appdata-override"@)]
    } else {
        seq![]
    };
    let bundled = seq![
        (PathRoot::HelperDir, seq!["config"@, config_file()], "helper-dir-config"@),
        (PathRoot::ExeDir, seq!["config"@, config_file()], "exe-dir-config"@),
        (
            PathRoot::ExeDir,
            seq!["data"@, "obs-plugins"@, module_folder(), "config"@, config_file()],
            "legacy-obs-root-data-config"@,
        ),
    ];
    let shared = if program_data {
        seq![
            (
                PathRoot::ProgramData,
                seq!["obs-studio"@, "plugins"@, module_folder(), "data"@, "config"@, config_file()],
                "programdata-plugin-data-config"@,
            ),
        ]
    } else {
        seq![]
    };
    user + bundled + shared
}

fn strings_of(parts: Vec<&str>) -> (r: Vec<String>)
    ensures
        string_views(r@) == parts@.map_values(|s: &str| s@),
{
    let mut r: Vec<String> = Vec::new();
    let mut i: usize = 0;
    while i < parts.len()
        invariant
            i <= parts@.len(),
            string_views(r@) == parts@.take(i as int).map_values(|s: &str| s@),
        decreases parts@.len() - i,
    {
        let ghost before = r@;
        r.push(string_of(parts[i]));
        proof {
            assert(r@ == before.push(r@.last()));
            assert(string_views(r@) =~= string_views(before).push(parts@[i as int]@));
            assert(parts@.take(i + 1) =~= parts@.take(i as int).push(parts@[i as int]));
            assert(parts@.take(i + 1).map_values(|s: &str| s@) =~= parts@.take(i as int).map_values(
                |s: &str| s@,
            ).push(parts@[i as int]@));
        }
        i = i + 1;
    }
    assert(parts@.take(parts@.len() as int) =~= parts@);
    r
}

fn candidate(root: PathRoot, parts: Vec<&str>, source: &str) -> (c: BundleCandidate)
    ensures
        c@ == (root, parts@.map_values(|s: &str| s@), source@),
{
    BundleCandidate { root, segments: strings_of(parts), source: string_of(source) }
}

/// The places of the helper executable, in the order they are tried.
pub fn helper_candidates(program_data: bool) -> (r: Vec<BundleCandidate>)
    ensures
        candidate_views(r@) == helper_places(program_data),
{
    let places = Ghost(helper_places(program_data));
    let mut r: Vec<BundleCandidate> = Vec::new();
    let c = candidate(PathRoot::ExeDir, vec!["overlay-helper.exe"], "exe-dir");
    assert(c@ =~= places@[0]);
    r.push(c);
    let c = candidate(PathRoot::ExeDir, vec!["obs-plugins", "64bit", "overlay-helper.exe"], "legacy-obs-root-bin");
    assert(c@ =~= places@[1]);
    r.push(c);
    let c = candidate(
        PathRoot::ExeDir,
        vec!["data", "obs-plugins", "soul-memory-obs-overlay", "overlay-helper.exe"],
        "legacy-obs-root-data",
    );
    assert(c@ =~= places@[2]);
    r.push(c);
    if program_data {
        let c = candidate(
            PathRoot::ProgramData,
            vec!["obs-studio", "plugins", "soul-memory-obs-overlay", "bin", "64bit", "overlay-helper.exe"],
            "programdata-plugin-bin",
        );
        assert(c@ =~= places@[3]);
        r.push(c);
    }
    assert(candidate_views(r@) =~= places@);
    r
}

/// The places of the configuration, in the order they are tried.
pub fn config_candidates(app_data: bool, program_data: bool) -> (r: Vec<BundleCandidate>)
    ensures
        candidate_views(r@) == config_places(app_data, program_data),
{
    let places = Ghost(config_places(app_data, program_data));
    let first: usize = if app_data { 1 } else { 0 };
    let mut r: Vec<BundleCandidate> = Vec::new();
    if app_data {
        let c = candidate(PathRoot::AppData, vec!["soul-memory-obs-overlay", "config", "overlay.toml"], "appdata-override");
        assert(c@ =~= places@[0]);
        r.push(c);
    }
    let c = candidate(PathRoot::HelperDir, vec!["config", "overlay.toml"], "helper-dir-config");
    assert(c@ =~= places@[first as int]);
    r.push(c);
    let c = candidate(PathRoot::ExeDir, vec!["config", "overlay.toml"], "exe-dir-config");
    assert(c@ =~= places@[first + 1]);
    r.push(c);
    let c = candidate(
        PathRoot::ExeDir,
        vec!["data", "obs-plugins", "soul-memory-obs-overlay", "config", "overlay.toml"],
        "legacy-obs-root-data-config",
    );
    assert(c@ =~= places@[first + 2]);
    r.push(c);
    if program_data {
        let c = candidate(
            PathRoot::ProgramData,
            vec!["obs-studio", "plugins", "soul-memory-obs-overlay", "data", "config", "overlay.toml"],
            "programdata-plugin-data-config",
        );
        assert(c@ =~= places@[first + 3]);
        r.push(c);
    }
    assert(candidate_views(r@) =~= places@);
    r
}

/// The folder the user's configuration lives in, below `APPDATA`.
pub fn user_config_folder() -> (r: Vec<String>)
    ensures
        string_views(r@) == seq![module_folder(), "config"@],
{
    let parts = vec!["soul-memory-obs-overlay", "config"];
    let ghost shown = parts@.map_values(|s: &str| s@);
    let r = strings_of(parts);
    assert(shown =~= seq![module_folder(), "config"@]);
    r
}

/// What was seen at one place: the path as it is displayed, and whether a
/// file lies there.
pub struct Probe {
    pub shown: String,
    pub is_file: bool,
}

/// `i` is the first place that holds a file.
pub open spec fn is_first_found(probes: Seq<Probe>, i: int) -> bool {
    &&& 0 <= i < probes.len()
    &&& probes[i].is_file
    &&& forall|j: int| 0 <= j < i ==> !(#[trigger] probes[j]).is_file
}

/// No place holds a file.
pub open spec fn none_found(probes: Seq<Probe>) -> bool {
    forall|j: int| 0 <= j < probes.len() ==> !(#[trigger] probes[j]).is_file
}

/// Each place checked, as its displayed path and its label in brackets.
pub open spec fn checked_list(candidates: Seq<BundleCandidate>, probes: Seq<Probe>) -> Seq<Seq<char>> {
    Seq::new(probes.len(), |i: int| probes[i].shown@ + " ["@ + candidates[i].source@ + "]"@)
}

/// The error when no place holds the file.
pub open spec fn not_found_message(what: Seq<char>, file_name: Seq<char>, checked: Seq<Seq<char>>) -> Seq<char> {
    "could not find bundled "@ + what + " '"@ + file_name + "': checked "@ + joined(checked, ", "@)
}

fn pick_first(what: &str, file_name: &str, candidates: &Vec<BundleCandidate>, probes: &Vec<Probe>) -> (r: Result<usize, String>)
    requires
        candidates@.len() == probes@.len(),
    ensures
        match r {
            Ok(i) => is_first_found(probes@, i as int),
            Err(m) => none_found(probes@) && m@ == not_found_message(
                what@,
                file_name@,
                checked_list(candidates@, probes@),
            ),
        },
{
    let mut i: usize = 0;
    while i < probes.len()
        invariant
            i <= probes@.len(),
            forall|j: int| 0 <= j < i ==> !(#[trigger] probes@[j]).is_file,
        decreases probes@.len() - i,
    {
        if probes[i].is_file {
            return Ok(i);
        }
        i = i + 1;
    }
    let mut checked: Vec<String> = Vec::new();
    let mut k: usize = 0;
    while k < probes.len()
        invariant
            k <= probes@.len(),
            candidates@.len() == probes@.len(),
            string_views(checked@) == checked_list(candidates@, probes@).take(k as int),
        decreases probes@.len() - k,
    {
        let mut line = probes[k].shown.clone();
        line.append(" [");
        line.append(candidates[k].source.as_str());
        line.append("]");
        let ghost before = checked@;
        checked.push(line);
        proof {
            assert(checked@ == before.push(line));
            assert(string_views(checked@) =~= string_views(before).push(line@));
            assert(checked_list(candidates@, probes@).take(k + 1) =~= checked_list(candidates@, probes@).take(
                k as int,
            ).push(line@));
        }
        k = k + 1;
    }
    assert(checked_list(candidates@, probes@).take(probes@.len() as int) =~= checked_list(candidates@, probes@));
    let mut m = string_of("could not find bundled ");
    m.append(what);
    m.append(" '");
    m.append(file_name);
    m.append("': checked ");
    let list = join_strings(&checked, ", ");
    m.append(list.as_str());
    Err(m)
}

/// Picks the helper executable: the first place that holds a file, or the
/// error that lists every place checked.
pub fn locate_helper(candidates: &Vec<BundleCandidate>, probes: &Vec<Probe>) -> (r: Result<usize, String>)
    requires
        candidates@.len() == probes@.len(),
    ensures
        match r {
            Ok(i) => is_first_found(probes@, i as int),
            Err(m) => none_found(probes@) && m@ == not_found_message(
                "helper executable"@,
                helper_binary(),
                checked_list(candidates@, probes@),
            ),
        },
{
    pick_first("helper executable", "overlay-helper.exe", candidates, probes)
}

/// Picks the configuration: the first place that holds a file, or the error
/// that lists every place checked.
pub fn locate_config(candidates: &Vec<BundleCandidate>, probes: &Vec<Probe>) -> (r: Result<usize, String>)
    requires
        candidates@.len() == probes@.len(),
    ensures
        match r {
            Ok(i) => is_first_found(probes@, i as int),
            Err(m) => none_found(probes@) && m@ == not_found_message(
                "config"@,
                config_file(),
                checked_list(candidates@, probes@),
            ),
        },
{
    pick_first("config", "overlay.toml", candidates, probes)
}

/// The user's own configuration under `APPDATA`, where it exists, is the one
/// chosen, whatever else is installed.
pub proof fn lemma_app_data_override_wins(program_data: bool, probes: Seq<Probe>, i: int)
    requires
        probes.len() == config_places(true, program_data).len(),
        probes[0].is_file,
        is_first_found(probes, i),
    ensures
        i == 0,
        config_places(true, program_data)[i] == (
            PathRoot::AppData,
            seq![module_folder(), "config"@, config_file()],
            "appdata-override"@,
        ),
{
}

} // verus!
