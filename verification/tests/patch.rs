use std::collections::BTreeMap;

use lanpatch::goldberg::install;
use lanpatch::goldberg::Assets;
use lanpatch::goldberg::Goldberg;
use lanpatch::meta::AppId;
use lanpatch::meta::Arch;
use lanpatch::meta::ExecutableMeta;
use lanpatch::meta::GameMeta;
use lanpatch::meta::Os;
use lanpatch::meta::Patcher;
use lanpatch::meta::SteamMeta;
use lanpatch::patchers::quick::Method;
use lanpatch::patchers::script::run_patcher;
use lanpatch::patchers::script::ScriptRun;
use lanpatch::patchers::Action;
use lanpatch::plan::FileWrite;
use lanpatch::steam_api::FilePath;
use lanpatch::steam_api::Version;
use lanpatch::Error;

fn assets() -> Assets {
    Assets {
        windows_x86: b"win32".to_vec(),
        windows_x64: b"win64".to_vec(),
        linux_x86: b"lin32".to_vec(),
        linux_x64: b"lin64".to_vec(),
    }
}

fn at(dir: &str, name: &str) -> FilePath {
    FilePath { dir: dir.to_string(), name: name.to_string() }
}

fn write(dir: &str, name: &str, contents: &[u8]) -> FileWrite {
    FileWrite { path: at(dir, name), contents: contents.to_vec() }
}

fn markers(dir: &str, app_id: &str) -> Vec<FileWrite> {
    vec![
        write(dir, "steam_appid.txt", app_id.as_bytes()),
        write(dir, "disable_lan_only.txt", b"1"),
        write(dir, "custom_broadcasts.txt", b""),
    ]
}

fn game(app_id: u32, arch: Arch, patcher: Patcher) -> GameMeta {
    GameMeta {
        patcher_dir: "patchers/game".to_string(),
        steam: SteamMeta { app_id: AppId(app_id), build_id: 3 },
        exe: ExecutableMeta { file: "game.exe".to_string(), arch, os: Os::Windows },
        patcher,
    }
}

fn quick() -> Patcher {
    Patcher::Quick { method: Method::Goldberg }
}

type Tree = BTreeMap<(String, String), Vec<u8>>;

fn tree(files: &[(&str, &str, &[u8])]) -> Tree {
    files.iter().map(|(d, n, c)| ((d.to_string(), n.to_string()), c.to_vec())).collect()
}

fn listing(tree: &Tree) -> Vec<FilePath> {
    tree.keys().map(|(dir, name)| at(dir, name)).collect()
}

fn apply(tree: &mut Tree, plan: &[FileWrite]) {
    for w in plan {
        tree.insert((w.path.dir.clone(), w.path.name.clone()), w.contents.clone());
    }
}

#[test]
fn get_lib_data_picks_the_build() {
    let assets = assets();
    assert_eq!(Goldberg::new(Arch::X86, Os::Windows).get_lib_data(&assets), b"win32");
    assert_eq!(Goldberg::new(Arch::X64, Os::Windows).get_lib_data(&assets), b"win64");
    assert_eq!(Goldberg::new(Arch::X86, Os::Linux).get_lib_data(&assets), b"lin32");
    assert_eq!(Goldberg::new(Arch::X64, Os::Linux).get_lib_data(&assets), b"lin64");
}

#[test]
fn file_name_goes_with_the_build() {
    assert_eq!(Goldberg::new(Arch::X86, Os::Windows).file_name(), "steam_api.dll");
    assert_eq!(Goldberg::new(Arch::X64, Os::Windows).file_name(), "steam_api64.dll");
    assert_eq!(Goldberg::new(Arch::X86, Os::Linux).file_name(), "libsteam_api.so");
    assert_eq!(Goldberg::new(Arch::X64, Os::Linux).file_name(), "libsteam_api.so");
}

#[test]
fn new_keeps_its_arguments() {
    let goldberg = Goldberg::new(Arch::X64, Os::Linux);
    assert_eq!(goldberg, Goldberg { arch: Arch::X64, os: Os::Linux });
    let version = Version::new(Arch::X86, Os::Windows);
    assert_eq!(version, Version { arch: Arch::X86, os: Os::Windows });
}

#[test]
fn install_writes_the_library_and_then_the_markers() {
    let plan = install("game/bin", Goldberg::new(Arch::X64, Os::Windows), AppId(480), &assets());
    let mut expected = vec![write("game/bin", "steam_api64.dll", b"win64")];
    expected.extend(markers("game/bin", "480"));
    assert_eq!(plan, expected);
    let plan = install("g", Goldberg::new(Arch::X86, Os::Linux), AppId(u32::MAX), &assets());
    assert_eq!(plan[0], write("g", "libsteam_api.so", b"lin32"));
    assert_eq!(plan[1], write("g", "steam_appid.txt", b"4294967295"));
    assert_eq!(plan.len(), 4);
}

#[test]
fn run_patches_every_library_and_then_marks_each_directory_once() {
    let files = vec![
        at("g", "game.exe"),
        at("g", "steam_api.dll"),
        at("g/server", "libsteam_api.so"),
        at("g", "steam_api64.dll"),
        at("g/server", "steam_api64.dll"),
    ];
    let meta = game(730, Arch::X86, quick());
    let plan = Method::Goldberg.run(&files, &meta, &assets());
    let mut expected = vec![
        write("g", "steam_api.dll", b"win32"),
        write("g/server", "libsteam_api.so", b"lin32"),
        write("g", "steam_api64.dll", b"win64"),
        write("g/server", "steam_api64.dll", b"win64"),
    ];
    expected.extend(markers("g", "730"));
    expected.extend(markers("g/server", "730"));
    assert_eq!(plan, expected);
}

#[test]
fn run_without_libraries_writes_nothing() {
    let files = vec![at("g", "game.exe"), at("g", "steam_appid.txt")];
    let meta = game(1, Arch::X64, quick());
    assert_eq!(Method::Goldberg.run(&files, &meta, &assets()), vec![]);
    assert_eq!(Method::Goldberg.run(&Vec::new(), &meta, &assets()), vec![]);
}

#[test]
fn run_twice_gives_the_same_tree() {
    let mut disk = tree(&[
        ("g", "game.exe", b"MZ"),
        ("g", "steam_api64.dll", b"steamworks"),
        ("g/tools", "steam_api.dll", b"steamworks32"),
        ("g/tools", "steam_appid.txt", b"stale"),
        ("g/linux", "libsteam_api.so", b"elf"),
    ]);
    let meta = game(4000, Arch::X64, quick());
    let first = Method::Goldberg.run(&listing(&disk), &meta, &assets());
    apply(&mut disk, &first);
    let after_first = disk.clone();
    assert_eq!(after_first[&("g".to_string(), "steam_api64.dll".to_string())], b"win64");
    assert_eq!(after_first[&("g/tools".to_string(), "steam_appid.txt".to_string())], b"4000");
    assert_eq!(after_first[&("g/linux".to_string(), "libsteam_api.so".to_string())], b"lin64");
    assert_eq!(after_first[&("g".to_string(), "game.exe".to_string())], b"MZ");
    assert_eq!(after_first.len(), 4 + 9);
    let mut reversed = listing(&disk);
    reversed.reverse();
    let second = Method::Goldberg.run(&reversed, &meta, &assets());
    assert!(!second.is_empty());
    apply(&mut disk, &second);
    assert_eq!(disk, after_first);
}

#[test]
fn files_added_names_the_markers_and_the_libraries() {
    let files = vec![at("g/bin", "game.exe"), at("g/bin", "steam_api64.dll")];
    assert_eq!(
        Method::Goldberg.files_added(&files, Arch::X64),
        vec!["steam_appid.txt", "disable_lan_only.txt", "custom_broadcasts.txt", "steam_api64.dll"]
    );
    let two = vec![at("a", "libsteam_api.so"), at("b", "steam_api.dll"), at("c", "steam_api.dll")];
    assert_eq!(
        Method::Goldberg.files_added(&two, Arch::X86),
        vec![
            "steam_appid.txt",
            "disable_lan_only.txt",
            "custom_broadcasts.txt",
            "libsteam_api.so",
            "steam_api.dll",
            "steam_api.dll",
        ]
    );
}

#[test]
fn files_added_is_empty_where_nothing_is_found() {
    let files = vec![at("g", "game.exe"), at("g", "disable_lan_only.txt")];
    assert!(Method::Goldberg.files_added(&files, Arch::X64).is_empty());
    assert!(Method::Goldberg.files_added(&Vec::new(), Arch::X86).is_empty());
}

#[test]
fn files_added_names_what_run_writes() {
    let files = vec![at("g", "steam_api.dll"), at("g/x", "steam_api64.dll"), at("g", "a.txt")];
    let meta = game(5, Arch::X64, quick());
    let mut written: Vec<String> = Method::Goldberg
        .run(&files, &meta, &assets())
        .into_iter()
        .map(|w| w.path.name)
        .collect();
    let mut declared = Method::Goldberg.files_added(&files, Arch::X64);
    written.sort();
    written.dedup();
    declared.sort();
    declared.dedup();
    assert_eq!(written, declared);
}

#[test]
fn patcher_run_of_a_builtin_strategy_gives_its_writes() {
    let files = vec![at("g", "steam_api64.dll")];
    let meta = game(9, Arch::X64, quick());
    let mut expected = vec![write("g", "steam_api64.dll", b"win64")];
    expected.extend(markers("g", "9"));
    assert_eq!(meta.patcher.run(&files, &meta, &assets()), Action::Write(expected));
}

#[test]
fn patcher_run_of_a_script_says_where_the_script_is() {
    let files = vec![at("g", "steam_api64.dll")];
    let meta = game(9, Arch::X64, Patcher::Script { path: "patch.rhai".to_string() });
    assert_eq!(
        meta.patcher.run(&files, &meta, &assets()),
        Action::RunScript { path: "patch.rhai".to_string(), dir: "patchers/game".to_string() }
    );
}

#[test]
fn script_that_completes_gives_its_writes_in_order() {
    let meta = game(77, Arch::X86, Patcher::Script { path: "p".to_string() });
    let files = vec![at("g", "libsteam_api.so"), at("g/w", "steam_api.dll")];
    let mut run = ScriptRun::new();
    let found = run.find_steam_dlls(&files, &meta);
    assert_eq!(found.len(), 2);
    assert_eq!(found[0].version, Version { arch: Arch::X86, os: Os::Linux });
    for library in &found {
        run.install_goldberg(&library.path.dir, library.version, 77, &assets());
    }
    let mut expected = vec![write("g", "libsteam_api.so", b"lin32")];
    expected.extend(markers("g", "77"));
    expected.push(write("g/w", "steam_api.dll", b"win32"));
    expected.extend(markers("g/w", "77"));
    assert_eq!(run_patcher(run, Ok(())), Ok(expected));
}

#[test]
fn script_that_raises_fails_and_writes_nothing() {
    let mut run = ScriptRun::new();
    run.install_goldberg("g", Version::new(Arch::X64, Os::Windows), 1, &assets());
    let result = run_patcher(run, Err("Runtime error: boom (line 3, position 5)".to_string()));
    assert_eq!(
        result,
        Err(Error::Script("Runtime error: boom (line 3, position 5)".to_string()))
    );
}

#[test]
fn script_that_does_not_compile_is_a_script_error_too() {
    let result = run_patcher(ScriptRun::new(), Err("Syntax error: expecting ';'".to_string()));
    assert_eq!(result, Err(Error::Script("Syntax error: expecting ';'".to_string())));
}

#[test]
fn script_that_asks_for_nothing_writes_nothing() {
    assert_eq!(run_patcher(ScriptRun::new(), Ok(())), Ok(vec![]));
}
