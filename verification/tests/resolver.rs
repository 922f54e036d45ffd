use lanpatch::meta::AppId;
use lanpatch::meta::Arch;
use lanpatch::meta::ExecutableMeta;
use lanpatch::meta::GameMeta;
use lanpatch::meta::Os;
use lanpatch::meta::Patcher;
use lanpatch::meta::SteamMeta;
use lanpatch::patchers::quick::Method;
use lanpatch::registry::Registry;
use lanpatch::resolver::fallback_meta;
use lanpatch::resolver::match_signature;
use lanpatch::resolver::resolve;
use lanpatch::steam_api::FilePath;
use lanpatch::Error;

fn known(app_id: u32, file: &str) -> GameMeta {
    GameMeta {
        patcher_dir: format!("patchers/{app_id}"),
        steam: SteamMeta { app_id: AppId(app_id), build_id: 2 },
        exe: ExecutableMeta { file: file.to_string(), arch: Arch::X86, os: Os::Linux },
        patcher: Patcher::Script { path: "patch.rhai".to_string() },
    }
}

fn made_up(app_id: u32) -> GameMeta {
    GameMeta {
        patcher_dir: String::new(),
        steam: SteamMeta { app_id: AppId(app_id), build_id: 0 },
        exe: ExecutableMeta { file: String::new(), arch: Arch::X64, os: Os::Windows },
        patcher: Patcher::Quick { method: Method::Goldberg },
    }
}

fn registry_of(titles: &[(u32, &str)]) -> Registry {
    let mut registry = Registry::new();
    for (app_id, file) in titles {
        registry.insert(known(*app_id, file));
    }
    registry
}

fn in_dir(dir: &str, name: &str) -> FilePath {
    FilePath { dir: dir.to_string(), name: name.to_string() }
}

fn game_dir() -> Vec<FilePath> {
    vec![in_dir("game/bin", "game.exe"), in_dir("game/bin", "steam_api64.dll")]
}

#[test]
fn explicit_identifier_is_looked_up() {
    let registry = registry_of(&[(10, "a.exe"), (20, "b.exe")]);
    let absent = vec![false, false];
    let found = resolve(&registry, Some(AppId(20)), &absent, &game_dir(), Method::Goldberg);
    assert_eq!(found, Ok(known(20, "b.exe")));
}

#[test]
fn unknown_explicit_identifier_fails() {
    let registry = registry_of(&[(10, "a.exe")]);
    let found = resolve(&registry, Some(AppId(999)), &vec![true], &game_dir(), Method::Goldberg);
    assert_eq!(found, Err(Error::UnknownAppId(AppId(999))));
    let empty = Registry::new();
    let found = resolve(&empty, Some(AppId(0)), &Vec::new(), &Vec::new(), Method::Goldberg);
    assert_eq!(found, Err(Error::UnknownAppId(AppId(0))));
}

#[test]
fn explicit_identifier_comes_before_the_executable_match() {
    let registry = registry_of(&[(10, "a.exe"), (20, "b.exe")]);
    let present = vec![true, false];
    let found = resolve(&registry, Some(AppId(20)), &present, &game_dir(), Method::Goldberg);
    assert_eq!(found, Ok(known(20, "b.exe")));
}

#[test]
fn first_descriptor_with_its_executable_present_is_taken() {
    let registry = registry_of(&[(10, "a.exe"), (20, "b.exe"), (30, "c.exe")]);
    let found = resolve(&registry, None, &vec![false, true, true], &game_dir(), Method::Goldberg);
    assert_eq!(found, Ok(known(20, "b.exe")));
    assert_eq!(match_signature(&registry, &vec![true, true, true]), Some(known(10, "a.exe")));
    assert_eq!(match_signature(&registry, &vec![false, false, true]), Some(known(30, "c.exe")));
    assert_eq!(match_signature(&registry, &vec![false, false, false]), None);
}

#[test]
fn findings_that_are_missing_count_as_absent() {
    let registry = registry_of(&[(10, "a.exe"), (20, "b.exe")]);
    assert_eq!(match_signature(&registry, &Vec::new()), None);
    assert_eq!(match_signature(&registry, &vec![false]), None);
    assert_eq!(match_signature(&registry, &vec![false, false, true]), None);
    assert_eq!(match_signature(&Registry::new(), &vec![true]), None);
}

#[test]
fn unknown_title_gets_a_fingerprint_of_its_manifest() {
    let registry = registry_of(&[(10, "a.exe")]);
    assert_eq!(registry.get(AppId(999)), None);
    let found = resolve(&registry, None, &vec![false], &game_dir(), Method::Goldberg);
    assert_eq!(found, Ok(made_up(844263361)));
}

#[test]
fn fallback_is_stable_across_runs_and_orders() {
    let mut reversed = game_dir();
    reversed.reverse();
    assert_eq!(fallback_meta(&game_dir(), Method::Goldberg), made_up(844263361));
    assert_eq!(fallback_meta(&reversed, Method::Goldberg), made_up(844263361));
    assert_eq!(fallback_meta(&game_dir(), Method::Goldberg), made_up(844263361));
}

#[test]
fn fallback_stays_the_same_once_the_title_is_patched() {
    let mut patched = game_dir();
    patched.push(in_dir("game/bin", "steam_appid.txt"));
    patched.push(in_dir("game/bin", "disable_lan_only.txt"));
    patched.push(in_dir("game/bin", "custom_broadcasts.txt"));
    assert_eq!(fallback_meta(&patched, Method::Goldberg), made_up(844263361));
}

#[test]
fn fallback_takes_names_without_their_directories() {
    let moved = vec![in_dir("elsewhere", "game.exe"), in_dir("deep/down/here", "steam_api64.dll")];
    assert_eq!(fallback_meta(&moved, Method::Goldberg), made_up(844263361));
}

#[test]
fn fallback_without_a_library_is_the_fingerprint_of_the_names_alone() {
    let files = vec![in_dir("g", "game.exe")];
    assert_eq!(fallback_meta(&files, Method::Goldberg), made_up(887061584));
    assert_eq!(fallback_meta(&Vec::new(), Method::Goldberg), made_up(0xe3b0c442));
}

#[test]
fn fallback_with_a_linux_library() {
    let files = vec![in_dir("g", "run.sh"), in_dir("g/lib", "libsteam_api.so")];
    assert_eq!(fallback_meta(&files, Method::Goldberg), made_up(1102561776));
}
