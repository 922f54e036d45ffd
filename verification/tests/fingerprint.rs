use lanpatch::fingerprint::comes_before;
use lanpatch::fingerprint::fingerprint;
use lanpatch::fingerprint::identifier_of;
use lanpatch::meta::AppId;

fn names(list: &[&str]) -> Vec<String> {
    list.iter().map(|name| name.to_string()).collect()
}

#[test]
fn fingerprint_of_a_known_manifest() {
    let manifest = names(&[
        "game.exe",
        "steam_api64.dll",
        "steam_appid.txt",
        "disable_lan_only.txt",
        "custom_broadcasts.txt",
    ]);
    assert_eq!(fingerprint(&manifest), AppId(844263361));
}

#[test]
fn fingerprint_of_no_names_is_the_digest_of_nothing() {
    assert_eq!(fingerprint(&Vec::new()), AppId(0xe3b0c442));
}

#[test]
fn fingerprint_of_one_name() {
    assert_eq!(fingerprint(&names(&["a"])), AppId(3398926610));
    assert_eq!(fingerprint(&names(&["game.exe"])), AppId(887061584));
}

#[test]
fn fingerprint_is_the_same_on_every_call() {
    let manifest = names(&["b", "a", "game.exe"]);
    let first = fingerprint(&manifest);
    assert_eq!(fingerprint(&manifest), first);
    assert_eq!(fingerprint(&manifest.clone()), first);
}

#[test]
fn fingerprint_ignores_the_order_of_the_names() {
    let expected = AppId(844263361);
    let (a, b, c) = ("custom_broadcasts.txt", "disable_lan_only.txt", "game.exe");
    let (d, e) = ("steam_api64.dll", "steam_appid.txt");
    let orders: [[&str; 5]; 4] = [[a, b, c, d, e], [e, d, c, b, a], [c, a, e, b, d], [d, e, a, c, b]];
    for order in orders {
        assert_eq!(fingerprint(&names(&order)), expected);
    }
    assert_eq!(fingerprint(&names(&["b", "a"])), AppId(4220395772));
    assert_eq!(fingerprint(&names(&["a", "b"])), AppId(4220395772));
}

#[test]
fn fingerprint_counts_a_repeated_name_once() {
    assert_eq!(fingerprint(&names(&["a", "a", "a"])), AppId(3398926610));
    assert_eq!(fingerprint(&names(&["b", "a", "b", "a"])), AppId(4220395772));
    assert_eq!(
        fingerprint(&names(&[
            "steam_api64.dll",
            "game.exe",
            "steam_api64.dll",
            "steam_appid.txt",
            "disable_lan_only.txt",
            "custom_broadcasts.txt",
            "game.exe",
        ])),
        AppId(844263361)
    );
}

#[test]
fn fingerprint_orders_names_by_their_bytes() {
    // In bytes: "Z.txt" < "a" < "z.txt" < "é.txt".
    assert_eq!(fingerprint(&names(&["é.txt", "z.txt", "Z.txt", "a"])), AppId(476607554));
    assert_eq!(fingerprint(&names(&["a", "Z.txt", "é.txt", "z.txt"])), AppId(476607554));
}

#[test]
fn fingerprint_differs_for_other_names() {
    assert_ne!(fingerprint(&names(&["a"])), fingerprint(&names(&["b"])));
    assert_ne!(fingerprint(&names(&["a"])), fingerprint(&Vec::new()));
}

#[test]
fn identifier_reads_four_bytes_highest_first() {
    let mut digest = [0u8; 32];
    assert_eq!(identifier_of(&digest), AppId(0));
    digest[3] = 1;
    assert_eq!(identifier_of(&digest), AppId(1));
    digest[0] = 0x12;
    digest[1] = 0x34;
    digest[2] = 0x56;
    digest[3] = 0x78;
    digest[4] = 0xff;
    assert_eq!(identifier_of(&digest), AppId(0x12345678));
    assert_eq!(identifier_of(&[0xff; 32]), AppId(u32::MAX));
}

#[test]
fn comes_before_is_the_order_of_byte_strings() {
    assert!(comes_before(b"", b"a"));
    assert!(!comes_before(b"", b""));
    assert!(!comes_before(b"a", b""));
    assert!(comes_before(b"a", b"b"));
    assert!(!comes_before(b"b", b"a"));
    assert!(comes_before(b"a", b"ab"));
    assert!(!comes_before(b"ab", b"a"));
    assert!(!comes_before(b"ab", b"ab"));
    assert!(comes_before(b"Z", b"a"));
    assert!(comes_before(b"steam_api64.dll", b"steam_appid.txt"));
    assert!(comes_before(&[0x7f], &[0x80]));
    let words: [&[u8]; 5] = [b"", b"a", b"ab", b"b", b"ba"];
    for (i, a) in words.iter().enumerate() {
        for (j, b) in words.iter().enumerate() {
            assert_eq!(comes_before(a, b), i < j);
            assert_eq!(comes_before(a, b), a < b);
        }
    }
}
