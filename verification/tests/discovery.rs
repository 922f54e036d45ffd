use lanpatch::meta::Arch;
use lanpatch::meta::Os;
use lanpatch::steam_api::classify;
use lanpatch::steam_api::find_steam_dlls;
use lanpatch::steam_api::FilePath;
use lanpatch::steam_api::Version;
use lanpatch::walk::Dir;
use lanpatch::walk::Entry;
use lanpatch::walk::Progress;
use lanpatch::walk::Walk;
use lanpatch::Error;

fn file(dir: &str, name: &str) -> FilePath {
    FilePath { dir: dir.to_string(), name: name.to_string() }
}

fn sub(path: &str, identity: &str) -> Entry {
    Entry::Directory { dir: Dir { path: path.to_string(), identity: identity.to_string() } }
}

fn plain(name: &str) -> Entry {
    Entry::File { name: name.to_string() }
}

/// A small tree, with a link in `game/bin/x64` that leads back to the root.
fn listing_of(path: &str) -> Result<Vec<Entry>, String> {
    match path {
        "game" => Ok(vec![plain("steam_api.dll"), sub("game/bin", "/g/bin"), plain("readme.txt")]),
        "game/bin" => Ok(vec![
            plain("game.exe"),
            sub("game/bin/x64", "/g/bin/x64"),
            sub("game/bin/linux", "/g/bin/linux"),
        ]),
        "game/bin/x64" => Ok(vec![plain("steam_api64.dll"), sub("game/bin/x64/up", "/g")]),
        "game/bin/linux" => Ok(vec![sub("game/bin/linux/lib", "/g/bin/linux/lib")]),
        "game/bin/linux/lib" => Ok(vec![plain("libsteam_api.so")]),
        other => Err(format!("no such directory: {other}")),
    }
}

fn walk_tree() -> (Vec<String>, Result<Vec<FilePath>, Error>) {
    let mut listed = Vec::new();
    let mut walk = Walk::begin(Dir { path: "game".to_string(), identity: "/g".to_string() });
    loop {
        let path = walk.current().path.clone();
        listed.push(path.clone());
        assert!(listed.len() <= 16);
        match walk.advance(listing_of(&path)) {
            Progress::Continue(next) => walk = next,
            Progress::Done(files) => return (listed, Ok(files)),
            Progress::Failed(error) => return (listed, Err(error)),
        }
    }
}

#[test]
fn finds_the_three_libraries() {
    let files = vec![
        file("game", "steam_api.dll"),
        file("game/bin", "game.exe"),
        file("game/bin/x64", "steam_api64.dll"),
        file("game/linux/lib/deep", "libsteam_api.so"),
    ];
    let found = find_steam_dlls(&files, Arch::X86);
    assert_eq!(found.len(), 3);
    assert_eq!(found[0].path, file("game", "steam_api.dll"));
    assert_eq!(found[0].version, Version { arch: Arch::X86, os: Os::Windows });
    assert_eq!(found[1].path, file("game/bin/x64", "steam_api64.dll"));
    assert_eq!(found[1].version, Version { arch: Arch::X64, os: Os::Windows });
    assert_eq!(found[2].path, file("game/linux/lib/deep", "libsteam_api.so"));
    assert_eq!(found[2].version, Version { arch: Arch::X86, os: Os::Linux });
}

#[test]
fn linux_library_takes_the_declared_architecture() {
    let files = vec![file("g", "libsteam_api.so")];
    assert_eq!(find_steam_dlls(&files, Arch::X64)[0].version.arch, Arch::X64);
    assert_eq!(find_steam_dlls(&files, Arch::X86)[0].version.arch, Arch::X86);
    let windows = vec![file("g", "steam_api.dll"), file("g", "steam_api64.dll")];
    let found = find_steam_dlls(&windows, Arch::X64);
    assert_eq!(found[0].version.arch, Arch::X86);
    assert_eq!(found[1].version.arch, Arch::X64);
}

#[test]
fn finds_nothing_among_other_files() {
    let files = vec![
        file("g", "game.exe"),
        file("g", "steam_api.dll.bak"),
        file("g", "Steam_api.dll"),
        file("g", "steam_api"),
        file("g", ""),
    ];
    assert!(find_steam_dlls(&files, Arch::X64).is_empty());
    assert!(find_steam_dlls(&Vec::new(), Arch::X64).is_empty());
}

#[test]
fn finds_the_same_library_in_two_directories() {
    let files = vec![file("g/client", "steam_api64.dll"), file("g/server", "steam_api64.dll")];
    let found = find_steam_dlls(&files, Arch::X86);
    assert_eq!(found.len(), 2);
    assert_eq!(found[0].path.dir, "g/client");
    assert_eq!(found[1].path.dir, "g/server");
}

#[test]
fn classify_knows_exactly_three_names() {
    assert_eq!(classify("steam_api.dll", Arch::X64), Some(Version::new(Arch::X86, Os::Windows)));
    assert_eq!(classify("steam_api64.dll", Arch::X86), Some(Version::new(Arch::X64, Os::Windows)));
    assert_eq!(classify("libsteam_api.so", Arch::X86), Some(Version::new(Arch::X86, Os::Linux)));
    assert_eq!(classify("libsteam_api.so", Arch::X64), Some(Version::new(Arch::X64, Os::Linux)));
    assert_eq!(classify("libsteam_api.so.1", Arch::X64), None);
    assert_eq!(classify("steam_appid.txt", Arch::X64), None);
    assert_eq!(classify("", Arch::X64), None);
}

#[test]
fn walk_reaches_every_file_and_lists_no_directory_twice() {
    let (listed, files) = walk_tree();
    assert_eq!(
        listed,
        vec!["game", "game/bin", "game/bin/linux", "game/bin/linux/lib", "game/bin/x64"]
    );
    let files = files.unwrap();
    assert_eq!(
        files,
        vec![
            file("game", "steam_api.dll"),
            file("game", "readme.txt"),
            file("game/bin", "game.exe"),
            file("game/bin/linux/lib", "libsteam_api.so"),
            file("game/bin/x64", "steam_api64.dll"),
        ]
    );
    let found = find_steam_dlls(&files, Arch::X64);
    assert_eq!(found.len(), 3);
    assert_eq!(found[0].version, Version { arch: Arch::X86, os: Os::Windows });
    assert_eq!(found[1].version, Version { arch: Arch::X64, os: Os::Linux });
    assert_eq!(found[2].version, Version { arch: Arch::X64, os: Os::Windows });
}

#[test]
fn walk_of_an_empty_directory_is_done_at_once() {
    let walk = Walk::begin(Dir { path: "empty".to_string(), identity: "/e".to_string() });
    assert_eq!(walk.current().path, "empty");
    match walk.advance(Ok(Vec::new())) {
        Progress::Done(files) => assert!(files.is_empty()),
        _ => panic!("the walk should be done"),
    }
}

#[test]
fn walk_does_not_follow_a_link_to_itself() {
    let walk = Walk::begin(Dir { path: "loop".to_string(), identity: "/l".to_string() });
    let listing = vec![sub("loop/again", "/l"), plain("a"), sub("loop/again2", "/l")];
    match walk.advance(Ok(listing)) {
        Progress::Done(files) => assert_eq!(files, vec![file("loop", "a")]),
        _ => panic!("the walk should be done"),
    }
}

#[test]
fn walk_lists_a_directory_with_two_paths_once() {
    let walk = Walk::begin(Dir { path: "r".to_string(), identity: "/r".to_string() });
    let walk = match walk.advance(Ok(vec![sub("r/a", "/r/a"), sub("r/b", "/r/a")])) {
        Progress::Continue(walk) => walk,
        _ => panic!("a directory is left"),
    };
    assert_eq!(walk.current().path, "r/b");
    match walk.advance(Ok(vec![plain("f")])) {
        Progress::Done(files) => assert_eq!(files, vec![file("r/b", "f")]),
        _ => panic!("the walk should be done"),
    }
}

#[test]
fn walk_fails_as_a_whole_when_a_listing_fails() {
    let walk = Walk::begin(Dir { path: "r".to_string(), identity: "/r".to_string() });
    let walk = match walk.advance(Ok(vec![plain("steam_api.dll"), sub("r/locked", "/r/locked")])) {
        Progress::Continue(walk) => walk,
        _ => panic!("a directory is left"),
    };
    match walk.advance(Err("permission denied".to_string())) {
        Progress::Failed(error) => assert_eq!(error, Error::Io("permission denied".to_string())),
        _ => panic!("the walk should fail"),
    }
}
