use metric_videos::settings::{Media, Settings, Startup};

#[test]
fn to_toml_default_prefix() {
    let def_settings: Settings = Settings {
        startup: Startup {
            working_dir: String::from("data"),
            listen_addr: String::from("0.0.0.0:80"),
        },
        media: Media {
            videos: vec![
                String::from("http://example.com/vid1.mp4"),
                String::from("http://example.com/vid2.mp4"),
            ],
        },
    };

    let default_config_file_contents = def_settings.to_toml();

    assert_eq!(&default_config_file_contents[..30], "[startup]\nworking_dir = \"data\"");
}

#[test]
fn to_toml_exact() {
    let s = Settings {
        startup: Startup {
            working_dir: String::from("d"),
            listen_addr: String::from("l:1"),
        },
        media: Media { videos: vec![String::from("a"), String::from("b")] },
    };
    assert_eq!(
        s.to_toml(),
        "[startup]\nworking_dir = \"d\"\nlisten_addr = \"l:1\"\n[media]\nvideos = [\"a\",\"b\"]"
    );
}
