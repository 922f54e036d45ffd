use lanpatch::descriptor::decode;
use lanpatch::descriptor::parse_descriptor;
use lanpatch::descriptor::DescriptorError;
use lanpatch::descriptor::Field;
use lanpatch::descriptor::Fields;
use lanpatch::meta::AppId;
use lanpatch::meta::Arch;
use lanpatch::meta::ExecutableMeta;
use lanpatch::meta::GameMeta;
use lanpatch::meta::Os;
use lanpatch::meta::Patcher;
use lanpatch::meta::SteamMeta;
use lanpatch::patchers::quick::Method;

const BUILTIN: &str = r#"
identifier = 480
buildRevision = 1234

[executable]
fileName = "bin/game.exe"
architecture = "X64"
platform = "Windows"

[strategy]
type = "builtin-replace"
method = "emulator-swap"
"#;

const SCRIPTED: &str = r#"
identifier = 4294967295
buildRevision = 0
executable = { fileName = "run.sh", architecture = "X86", platform = "Linux" }
strategy = { type = "script", path = "patch.rhai" }
"#;

fn text(value: &str) -> Option<String> {
    Some(value.to_string())
}

fn good_fields() -> Fields {
    Fields {
        identifier: Some(480),
        build_revision: Some(1234),
        file_name: text("bin/game.exe"),
        architecture: text("X64"),
        platform: text("Windows"),
        strategy: text("builtin-replace"),
        method: text("emulator-swap"),
        path: None,
    }
}

fn good_meta(dir: &str) -> GameMeta {
    GameMeta {
        patcher_dir: dir.to_string(),
        steam: SteamMeta { app_id: AppId(480), build_id: 1234 },
        exe: ExecutableMeta {
            file: "bin/game.exe".to_string(),
            arch: Arch::X64,
            os: Os::Windows,
        },
        patcher: Patcher::Quick { method: Method::Goldberg },
    }
}

#[test]
fn parses_a_builtin_descriptor() {
    assert_eq!(parse_descriptor(BUILTIN, "patchers/spacewar"), Ok(good_meta("patchers/spacewar")));
}

#[test]
fn parses_a_script_descriptor() {
    let meta = parse_descriptor(SCRIPTED, "/opt/patchers/x").unwrap();
    assert_eq!(meta.patcher_dir, "/opt/patchers/x");
    assert_eq!(meta.steam, SteamMeta { app_id: AppId(u32::MAX), build_id: 0 });
    assert_eq!(meta.exe.file, "run.sh");
    assert_eq!(meta.exe.arch, Arch::X86);
    assert_eq!(meta.exe.os, Os::Linux);
    assert_eq!(meta.patcher, Patcher::Script { path: "patch.rhai".to_string() });
}

#[test]
fn parsing_sets_the_directory_and_nothing_else_from_it() {
    let one = parse_descriptor(BUILTIN, "a").unwrap();
    let other = parse_descriptor(BUILTIN, "b").unwrap();
    assert_eq!(one.patcher_dir, "a");
    assert_eq!(other.patcher_dir, "b");
    assert_eq!(one.steam, other.steam);
    assert_eq!(one.exe, other.exe);
    assert_eq!(one.patcher, other.patcher);
}

#[test]
fn ignores_keys_that_a_descriptor_does_not_use() {
    let with_more = format!("title = \"Spacewar\"\n{BUILTIN}extra = 1\n");
    assert_eq!(parse_descriptor(&with_more, "d"), Ok(good_meta("d")));
}

#[test]
fn text_that_is_not_toml_is_a_syntax_error() {
    for bad in ["identifier = ", "[executable", "identifier = 1\nidentifier = 2", "= 3"] {
        match parse_descriptor(bad, "d") {
            Err(DescriptorError::Syntax(message)) => assert!(!message.is_empty()),
            other => panic!("expected a syntax error for {bad:?}, got {other:?}"),
        }
    }
}

#[test]
fn empty_text_misses_the_identifier() {
    assert_eq!(parse_descriptor("", "d"), Err(DescriptorError::Missing(Field::Identifier)));
}

#[test]
fn reports_the_first_key_that_is_missing() {
    let cases = [
        ("identifier = 480\n", "", Field::Identifier),
        ("buildRevision = 1234\n", "", Field::BuildRevision),
        ("fileName = \"bin/game.exe\"\n", "", Field::FileName),
        ("architecture = \"X64\"\n", "", Field::Architecture),
        ("platform = \"Windows\"\n", "", Field::Platform),
        ("type = \"builtin-replace\"\n", "", Field::Strategy),
        ("method = \"emulator-swap\"\n", "", Field::Method),
    ];
    for (line, with, field) in cases {
        let text = BUILTIN.replace(line, with);
        assert_ne!(text, BUILTIN);
        assert_eq!(parse_descriptor(&text, "d"), Err(DescriptorError::Missing(field)));
    }
    let no_path = SCRIPTED.replace(", path = \"patch.rhai\"", "");
    assert_eq!(parse_descriptor(&no_path, "d"), Err(DescriptorError::Missing(Field::Path)));
}

#[test]
fn a_value_of_another_type_counts_as_missing() {
    let text = BUILTIN.replace("identifier = 480", "identifier = \"480\"");
    assert_eq!(parse_descriptor(&text, "d"), Err(DescriptorError::Missing(Field::Identifier)));
    let text = BUILTIN.replace("buildRevision = 1234", "buildRevision = 1.5");
    assert_eq!(parse_descriptor(&text, "d"), Err(DescriptorError::Missing(Field::BuildRevision)));
    let text = BUILTIN.replace("fileName = \"bin/game.exe\"", "fileName = 7");
    assert_eq!(parse_descriptor(&text, "d"), Err(DescriptorError::Missing(Field::FileName)));
    let text = "identifier = 1\nbuildRevision = 2\nexecutable = 3\n";
    assert_eq!(parse_descriptor(text, "d"), Err(DescriptorError::Missing(Field::FileName)));
}

#[test]
fn numbers_must_fit_in_32_bits() {
    let text = BUILTIN.replace("identifier = 480", "identifier = 4294967296");
    assert_eq!(parse_descriptor(&text, "d"), Err(DescriptorError::OutOfRange(Field::Identifier)));
    let text = BUILTIN.replace("identifier = 480", "identifier = -1");
    assert_eq!(parse_descriptor(&text, "d"), Err(DescriptorError::OutOfRange(Field::Identifier)));
    let text = BUILTIN.replace("buildRevision = 1234", "buildRevision = -5");
    assert_eq!(
        parse_descriptor(&text, "d"),
        Err(DescriptorError::OutOfRange(Field::BuildRevision))
    );
    let text = BUILTIN.replace("identifier = 480", "identifier = 4294967295");
    assert_eq!(parse_descriptor(&text, "d").unwrap().steam.app_id, AppId(u32::MAX));
    let text = BUILTIN.replace("identifier = 480", "identifier = 0");
    assert_eq!(parse_descriptor(&text, "d").unwrap().steam.app_id, AppId(0));
}

#[test]
fn unknown_names_are_refused() {
    let text = BUILTIN.replace("\"X64\"", "\"arm64\"");
    assert_eq!(parse_descriptor(&text, "d"), Err(DescriptorError::Unknown(Field::Architecture)));
    let text = BUILTIN.replace("\"X64\"", "\"x64\"");
    assert_eq!(parse_descriptor(&text, "d"), Err(DescriptorError::Unknown(Field::Architecture)));
    let text = BUILTIN.replace("\"Windows\"", "\"MacOS\"");
    assert_eq!(parse_descriptor(&text, "d"), Err(DescriptorError::Unknown(Field::Platform)));
    let text = BUILTIN.replace("\"builtin-replace\"", "\"magic\"");
    assert_eq!(parse_descriptor(&text, "d"), Err(DescriptorError::Unknown(Field::Strategy)));
    let text = BUILTIN.replace("\"emulator-swap\"", "\"other\"");
    assert_eq!(parse_descriptor(&text, "d"), Err(DescriptorError::Unknown(Field::Method)));
}

#[test]
fn decode_accepts_complete_fields() {
    assert_eq!(decode(&good_fields(), "dir"), Ok(good_meta("dir")));
    let scripted = Fields {
        strategy: text("script"),
        method: None,
        path: text("/abs/patch.rhai"),
        architecture: text("X86"),
        platform: text("Linux"),
        ..good_fields()
    };
    let meta = decode(&scripted, "dir").unwrap();
    assert_eq!(meta.patcher, Patcher::Script { path: "/abs/patch.rhai".to_string() });
    assert_eq!(meta.exe.arch, Arch::X86);
    assert_eq!(meta.exe.os, Os::Linux);
}

#[test]
fn decode_reports_the_first_fault_in_order() {
    let all_wrong = Fields {
        identifier: Some(-1),
        build_revision: None,
        file_name: None,
        architecture: text("?"),
        platform: None,
        strategy: text("?"),
        method: None,
        path: None,
    };
    assert_eq!(decode(&all_wrong, "d"), Err(DescriptorError::OutOfRange(Field::Identifier)));
    let next = Fields { identifier: Some(1), ..all_wrong };
    assert_eq!(decode(&next, "d"), Err(DescriptorError::Missing(Field::BuildRevision)));
    let next = Fields { build_revision: Some(1 << 32), ..next };
    assert_eq!(decode(&next, "d"), Err(DescriptorError::OutOfRange(Field::BuildRevision)));
    let next = Fields { build_revision: Some(2), ..next };
    assert_eq!(decode(&next, "d"), Err(DescriptorError::Missing(Field::FileName)));
    let next = Fields { file_name: text(""), ..next };
    assert_eq!(decode(&next, "d"), Err(DescriptorError::Unknown(Field::Architecture)));
    let next = Fields { architecture: text("X86"), ..next };
    assert_eq!(decode(&next, "d"), Err(DescriptorError::Missing(Field::Platform)));
    let next = Fields { platform: text("Linux"), ..next };
    assert_eq!(decode(&next, "d"), Err(DescriptorError::Unknown(Field::Strategy)));
    let next = Fields { strategy: text("script"), ..next };
    assert_eq!(decode(&next, "d"), Err(DescriptorError::Missing(Field::Path)));
    let next = Fields { path: text("p"), ..next };
    assert!(decode(&next, "d").is_ok());
}

#[test]
fn decode_takes_only_the_keys_of_the_named_strategy() {
    let builtin_with_path = Fields { path: text("ignored.rhai"), ..good_fields() };
    assert_eq!(decode(&builtin_with_path, "dir"), Ok(good_meta("dir")));
    let script_with_method = Fields {
        strategy: text("script"),
        method: text("no-such-method"),
        path: text("p.rhai"),
        ..good_fields()
    };
    assert_eq!(
        decode(&script_with_method, "dir").unwrap().patcher,
        Patcher::Script { path: "p.rhai".to_string() }
    );
}

#[test]
fn architectures_and_systems_are_found_again_by_their_names() {
    for arch in [Arch::X86, Arch::X64] {
        assert_eq!(Arch::from_name(arch.name()), Some(arch));
    }
    for os in [Os::Windows, Os::Linux] {
        assert_eq!(Os::from_name(os.name()), Some(os));
    }
    assert_eq!(Arch::X86.name(), "X86");
    assert_eq!(Arch::X64.name(), "X64");
    assert_eq!(Os::Windows.name(), "Windows");
    assert_eq!(Os::Linux.name(), "Linux");
    assert_eq!(Arch::from_name("x86"), None);
    assert_eq!(Arch::from_name(""), None);
    assert_eq!(Os::from_name("windows"), None);
    assert_eq!(Os::from_name("Linux "), None);
}
