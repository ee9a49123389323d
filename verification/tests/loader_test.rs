use bevy_assets_hmr::loader::{format_for_extension, format_for_lowercase};
use bevy_assets_hmr::{ConfigFormat, ConfigLoader, ConfigLoaderError};

type Theme = (String, u32);

#[test]
fn extension_picks_the_format_without_regard_to_case() {
    assert!(matches!(format_for_extension("ron"), Ok(ConfigFormat::Ron)));
    assert!(matches!(format_for_extension("RON"), Ok(ConfigFormat::Ron)));
    assert!(matches!(format_for_extension("Json"), Ok(ConfigFormat::Json)));
    match format_for_extension("TOML") {
        Err(ConfigLoaderError::UnsupportedExtension(other)) => assert_eq!(other, "toml"),
        other => panic!("expected an unsupported extension, got {other:?}"),
    }
}

#[test]
fn ron_and_json_bytes_decode_to_the_same_config() {
    let loader: ConfigLoader<Theme> = ConfigLoader::new();
    let from_ron = loader.parse("ron", b"(\"dark\", 3)").unwrap();
    let from_json = loader.parse("json", br#"["dark", 3]"#).unwrap();
    assert_eq!(from_ron, ("dark".to_string(), 3));
    assert_eq!(from_ron, from_json);
}

#[test]
fn invalid_bytes_keep_the_parser_error_of_their_format() {
    let loader: ConfigLoader<Theme> = ConfigLoader::default();
    assert!(matches!(loader.parse("ron", b"(\"dark\", "), Err(ConfigLoaderError::Ron(_))));
    assert!(matches!(loader.parse("json", b"{"), Err(ConfigLoaderError::Json(_))));
    assert!(matches!(loader.parse("yaml", b"name: x"), Err(ConfigLoaderError::UnsupportedExtension(_))));
}

#[test]
fn validation_verdict_decides_acceptance() {
    let loader: ConfigLoader<Theme> = ConfigLoader::new();
    let raw: Theme = ("light".into(), 1);
    let asset = loader.accept(raw, Ok(()), "data/theme.ron".to_string()).unwrap();
    assert_eq!(asset.raw.0, "light");
    assert_eq!(asset.source_path, "data/theme.ron");
    let refused = loader.accept(("x".to_string(), 0), Err("size must be positive".into()), "data/theme.ron".into());
    match refused {
        Err(ConfigLoaderError::Validation(reason)) => assert_eq!(reason, "size must be positive"),
        _ => panic!("the validator's refusal should be kept"),
    }
}

#[test]
fn lowercase_extension_names_its_format_exactly() {
    assert!(matches!(format_for_lowercase("ron".to_string()), Ok(ConfigFormat::Ron)));
    assert!(matches!(format_for_lowercase("json".to_string()), Ok(ConfigFormat::Json)));
    match format_for_lowercase("RON".to_string()) {
        Err(ConfigLoaderError::UnsupportedExtension(other)) => assert_eq!(other, "RON"),
        other => panic!("an upper-case name is not lowered here, got {other:?}"),
    }
}
