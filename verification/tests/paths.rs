use rsst::cli::Opt;
use rsst::config::{resolve_output_format, Config, Setting};
use rsst::util::{get_config_file, get_metadata_dir, get_output_dir, Error};

#[test]
fn config_file_prefers_explicit_path() {
    assert_eq!(
        get_config_file(
            Some(String::from("/etc/rsst.toml")),
            Some(String::from("/xdg")),
            Some(String::from("/home/u"))
        ),
        Ok(String::from("/etc/rsst.toml"))
    );
}

#[test]
fn config_file_uses_xdg_config_home() {
    assert_eq!(
        get_config_file(None, Some(String::from("/xdg")), Some(String::from("/home/u"))),
        Ok(String::from("/xdg/rsst/config.toml"))
    );
}

#[test]
fn config_file_falls_back_to_home() {
    assert_eq!(
        get_config_file(None, None, Some(String::from("/home/u"))),
        Ok(String::from("/home/u/.config/rsst/config.toml"))
    );
}

#[test]
fn config_file_without_home_is_not_supported() {
    assert_eq!(get_config_file(None, None, None), Err(Error::NotSupported));
}

#[test]
fn metadata_dir_appends_rsst() {
    assert_eq!(
        get_metadata_dir(Some(String::from("/tmp/x")), None, None),
        Ok(String::from("/tmp/x/rsst"))
    );
    // A base that already ends in a separator gets no second one.
    assert_eq!(
        get_metadata_dir(Some(String::from("/tmp/x/")), None, None),
        Ok(String::from("/tmp/x/rsst"))
    );
    assert_eq!(
        get_metadata_dir(None, Some(String::from("/data")), Some(String::from("/home/u"))),
        Ok(String::from("/data/rsst"))
    );
    assert_eq!(
        get_metadata_dir(None, None, Some(String::from("/home/u"))),
        Ok(String::from("/home/u/.local/share/rsst"))
    );
    assert_eq!(get_metadata_dir(None, None, None), Err(Error::NotSupported));
}

#[test]
fn output_dir_resolution() {
    assert_eq!(
        get_output_dir(Some(String::from("/out")), Some(String::from("/folder")), None),
        Ok(String::from("/out"))
    );
    assert_eq!(
        get_output_dir(None, Some(String::from("/folder")), Some(String::from("/home/u"))),
        Ok(String::from("/folder"))
    );
    assert_eq!(
        get_output_dir(None, None, Some(String::from("/home/u"))),
        Ok(String::from("/home/u/rsst"))
    );
    assert_eq!(get_output_dir(None, None, None), Err(Error::NotSupported));
}

#[test]
fn output_format_rule() {
    assert_eq!(resolve_output_format(None), Some(String::from("html")));
    assert_eq!(
        resolve_output_format(Some(String::from("html"))),
        Some(String::from("html"))
    );
    assert_eq!(resolve_output_format(Some(String::from("markdown"))), None);
}

#[test]
fn cli_and_config_shapes_carry_values() {
    let opt = Opt {
        dry_run: true,
        stdout: false,
        config: Some(String::from("/c")),
    };
    assert!(opt.dry_run);
    assert!(!opt.stdout);
    assert_eq!(opt.config, Some(String::from("/c")));
    let cfg = Config {
        setting: Setting {
            output_format: Some(String::from("html")),
            output_dir: None,
            metadata_dir: None,
        },
        source: vec![(String::from("a"), String::from("http://x"))],
    };
    assert_eq!(cfg.source.len(), 1);
    assert_eq!(cfg.setting.output_format, Some(String::from("html")));
}
