use double_riichi_server::characters::assets::{
    etag_matches, is_ogg, is_provider, is_safe_character_id, is_webp, normalize_display_name,
    starter_version, CharacterAsset, CharacterRegistryError, CharacterUsage, VoiceLine,
};
use double_riichi_server::characters::registry::{
    case_key_of, etag_of, hex_lower_string, pack_root, CharacterManifest, CharacterRegistry,
    EntryKind, ScannedFile, ScannedFolder,
};
use double_riichi_server::characters::requirements::CharacterRequirements;

const ROOT: &str = "/data/character-packs";

fn webp() -> Vec<u8> {
    let mut bytes = b"RIFF\x10\x00\x00\x00WEBPVP8 ".to_vec();
    bytes.extend_from_slice(&[0u8; 8]);
    bytes
}

fn ogg() -> Vec<u8> {
    b"OggS\x00\x02rest".to_vec()
}

fn file(folder: &str, name: &str, bytes: Vec<u8>, inode: u64) -> Result<ScannedFile, CharacterRegistryError> {
    Ok(ScannedFile {
        path: format!("{ROOT}/{folder}/{name}"),
        bytes,
        identity: Some((1, inode)),
    })
}

fn pack(folder: &str, id: &str, usage: CharacterUsage, first_inode: u64) -> ScannedFolder {
    let voices = ["chi", "pon", "kan", "riichi", "ron", "tsumo"]
        .iter()
        .enumerate()
        .map(|(i, v)| file(folder, &format!("voices/{v}.ogg"), ogg(), first_inode + 4 + i as u64))
        .collect();
    ScannedFolder {
        name: Some(folder.to_owned()),
        kind: EntryKind::Directory,
        manifest_file: file(folder, "pack.json", b"{}".to_vec(), first_inode),
        manifest: Some(CharacterManifest {
            id: id.to_owned(),
            name: format!("  {id} name "),
            usage,
        }),
        license: file(folder, "LICENSE", b"CC-BY".to_vec(), first_inode + 1),
        portrait: file(folder, "portrait.webp", webp(), first_inode + 2),
        icon: file(folder, "icon.webp", webp(), first_inode + 3),
        voices,
    }
}

fn starter_folders() -> Vec<ScannedFolder> {
    vec![
        pack("human", "human", CharacterUsage::Human, 100),
        pack("mcp-agent", "mcp-agent", CharacterUsage::Mcp, 200),
        pack("mjai-bot", "mjai-bot", CharacterUsage::Mjai, 300),
        pack("tsumogiri-bot", "tsumogiri-bot", CharacterUsage::Builtin, 400),
    ]
}

#[test]
fn voice_lines_read_back_their_names() {
    for voice in [VoiceLine::Chi, VoiceLine::Pon, VoiceLine::Kan, VoiceLine::Riichi, VoiceLine::Ron, VoiceLine::Tsumo] {
        assert_eq!(VoiceLine::parse(voice.as_str()), Some(voice));
    }
    assert_eq!(VoiceLine::parse("Chi"), None);
    assert_eq!(CharacterAsset::Voice(VoiceLine::Riichi).relative_path(), "voices/riichi.ogg");
    assert_eq!(CharacterAsset::Portrait.relative_path(), "portrait.webp");
    assert_eq!(CharacterAsset::Icon.content_type(), "image/webp");
    assert_eq!(CharacterAsset::Voice(VoiceLine::Ron).content_type(), "audio/ogg");
    assert_eq!(starter_version(), "1.0.0");
}

#[test]
fn ids_providers_and_names_follow_their_alphabets() {
    assert!(is_safe_character_id("mjai-bot"));
    assert!(is_safe_character_id("0abc"));
    assert!(!is_safe_character_id("-abc"));
    assert!(!is_safe_character_id("Abc"));
    assert!(!is_safe_character_id(""));
    assert!(!is_safe_character_id(&"a".repeat(65)));
    assert!(is_provider("open_ai-2"));
    assert!(!is_provider("OpenAI"));
    assert_eq!(normalize_display_name("  Riichi Bot ").as_deref(), Some("Riichi Bot"));
    assert_eq!(normalize_display_name("   "), None);
    assert_eq!(normalize_display_name("tab\tinside"), None);
}

#[test]
fn container_headers_are_checked() {
    assert!(is_webp(&webp()));
    assert!(!is_webp(b"RIFF\x00\x00\x00\x00WAVE"));
    assert!(is_ogg(&ogg()));
    assert!(!is_ogg(b"Ogg"));
}

#[test]
fn entity_tags_are_quoted_sha256_hex() {
    assert_eq!(hex_lower_string(&[0x00, 0xab, 0x10]), "00ab10");
    assert_eq!(
        etag_of(b"abc"),
        "\"ba7816bf8f01cfea414140de5dae2223b00361a396177a9cb410ff61f20015ad\""
    );
    let tag = etag_of(b"abc");
    assert!(etag_matches(&tag, &tag));
    assert!(etag_matches(&format!("\"x\", W/{tag}"), &tag));
    assert!(etag_matches(" * ", &tag));
    assert!(!etag_matches("\"other\"", &tag));
}

#[test]
fn case_keys_fold_each_component() {
    assert_eq!(case_key_of("/Data/Pack/ICON.webp"), "/data/pack/icon.webp");
    assert_eq!(pack_root("/srv/data"), "/srv/data/character-packs");
    assert_eq!(pack_root("/srv/data/"), "/srv/data/character-packs");
    assert_eq!(pack_root(""), "character-packs");
}

#[test]
fn requirements_keep_the_last_pack_per_provider_in_provider_order() {
    let requirements = CharacterRequirements::new(
        "mjai-bot",
        "tsumogiri-bot",
        "mcp-agent",
        vec![
            ("zeta".to_owned(), "first".to_owned()),
            ("alpha".to_owned(), "a-pack".to_owned()),
            ("zeta".to_owned(), "second".to_owned()),
        ],
    )
    .unwrap();
    assert_eq!(
        requirements.mcp_providers,
        vec![
            ("alpha".to_owned(), "a-pack".to_owned()),
            ("zeta".to_owned(), "second".to_owned()),
        ]
    );
    let expected: Vec<(String, CharacterUsage)> = requirements.expected();
    assert_eq!(expected.len(), 5);
    assert_eq!(expected[3], ("a-pack".to_owned(), CharacterUsage::Mcp));
    assert_eq!(
        CharacterRequirements::new("BAD", "tsumogiri-bot", "mcp-agent", Vec::new()).err(),
        Some(CharacterRegistryError::InvalidRequirement)
    );
    assert_eq!(
        CharacterRequirements::new("a", "b", "c", vec![("Bad Provider".to_owned(), "x".to_owned())]).err(),
        Some(CharacterRegistryError::InvalidRequirement)
    );
}

#[test]
fn starter_packs_load_and_serve_their_assets() {
    let folders = starter_folders();
    let registry = CharacterRegistry::load_default_from_data_root(ROOT, &folders).unwrap();
    assert_eq!(registry.root(), ROOT);
    let ids: Vec<&str> = registry.characters().iter().map(|p| p.id()).collect();
    assert_eq!(ids, vec!["human", "mcp-agent", "mjai-bot", "tsumogiri-bot"]);
    let humans = registry.human_characters();
    assert_eq!(humans.len(), 1);
    assert_eq!(humans[0].id, "human");
    assert_eq!(humans[0].name, "human name");
    let icon = registry.asset("human", CharacterAsset::Icon).unwrap();
    assert_eq!(icon.relative_path(), "human/icon.webp");
    assert_eq!(icon.content_type(), "image/webp");
    assert_eq!(icon.bytes(), webp().as_slice());
    assert_eq!(icon.etag(), etag_of(&webp()));
    let voice = registry.asset("mjai-bot", CharacterAsset::Voice(VoiceLine::Tsumo)).unwrap();
    assert_eq!(voice.relative_path(), "mjai-bot/voices/tsumo.ogg");
    assert_eq!(voice.content_type(), "audio/ogg");
    assert!(registry.character("../human").is_none());
    assert!(registry.character("nobody").is_none());
    assert_eq!(registry.character("human").unwrap().usage(), CharacterUsage::Human);
}

#[test]
fn a_missing_human_pack_or_required_pack_is_refused() {
    let only_bots: Vec<ScannedFolder> = starter_folders().into_iter().skip(1).collect();
    assert_eq!(
        CharacterRegistry::scan(ROOT, &only_bots).err(),
        Some(CharacterRegistryError::MissingHumanPack)
    );
    let no_mjai = vec![pack("human", "human", CharacterUsage::Human, 100)];
    assert!(CharacterRegistry::scan(ROOT, &no_mjai).is_ok());
    assert_eq!(
        CharacterRegistry::load_default_from_data_root(ROOT, &no_mjai).err(),
        Some(CharacterRegistryError::MissingRequiredPack)
    );
    let mut wrong_usage = starter_folders();
    wrong_usage[2] = pack("mjai-bot", "mjai-bot", CharacterUsage::Human, 300);
    assert_eq!(
        CharacterRegistry::load_default_from_data_root(ROOT, &wrong_usage).err(),
        Some(CharacterRegistryError::UsageMismatch)
    );
    let bad = CharacterRequirements {
        mjai: "BAD".to_owned(),
        builtin: "tsumogiri-bot".to_owned(),
        mcp: "mcp-agent".to_owned(),
        mcp_providers: Vec::new(),
    };
    assert_eq!(
        CharacterRegistry::load(ROOT, &starter_folders(), &bad).err(),
        Some(CharacterRegistryError::InvalidRequirement)
    );
}

#[test]
fn unsafe_entries_and_shared_files_are_refused() {
    let mut folders = starter_folders();
    folders[1].kind = EntryKind::Link;
    assert_eq!(
        CharacterRegistry::scan(ROOT, &folders).err(),
        Some(CharacterRegistryError::UnsafePath)
    );
    let mut folders = starter_folders();
    folders[1].kind = EntryKind::Unreadable;
    assert_eq!(CharacterRegistry::scan(ROOT, &folders).err(), Some(CharacterRegistryError::Io));
    let mut folders = starter_folders();
    folders[1].icon = Err(CharacterRegistryError::UnsafePath);
    assert_eq!(
        CharacterRegistry::scan(ROOT, &folders).err(),
        Some(CharacterRegistryError::UnsafePath)
    );
    let mut shared = starter_folders();
    shared[1] = pack("mcp-agent", "mcp-agent", CharacterUsage::Mcp, 100);
    assert_eq!(
        CharacterRegistry::scan(ROOT, &shared).err(),
        Some(CharacterRegistryError::DuplicatePath)
    );
    let mut twice = starter_folders();
    twice[1].manifest = Some(CharacterManifest {
        id: "human".to_owned(),
        name: "again".to_owned(),
        usage: CharacterUsage::Human,
    });
    assert_eq!(
        CharacterRegistry::scan(ROOT, &twice).err(),
        Some(CharacterRegistryError::DuplicateId)
    );
}

#[test]
fn invalid_packs_are_skipped() {
    let mut folders = starter_folders();
    folders.push(pack("zz-broken", "zz-broken", CharacterUsage::Human, 900));
    folders[4].portrait = file("zz-broken", "portrait.webp", b"not an image".to_vec(), 902);
    let mut other = pack("zz-renamed", "not-the-folder", CharacterUsage::Human, 950);
    other.name = Some("zz-renamed".to_owned());
    folders.push(other);
    let mut plain_file = pack("zz-file", "zz-file", CharacterUsage::Human, 990);
    plain_file.kind = EntryKind::Other;
    folders.push(plain_file);
    let mut big_license = pack("zz-license", "zz-license", CharacterUsage::Human, 1990);
    big_license.license = file("zz-license", "LICENSE", vec![0xff, 0xfe], 1991);
    folders.push(big_license);
    let registry = CharacterRegistry::scan(ROOT, &folders).unwrap();
    assert_eq!(registry.characters().len(), 4);
    assert!(registry.character("zz-broken").is_none());
    assert!(registry.character("not-the-folder").is_none());
    assert!(registry.character("zz-license").is_none());
}
