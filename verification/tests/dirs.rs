use things::dirs::{append_log_dir, auth_file_path, xdg_home_from};

fn bytes(text: &str) -> Vec<u8> {
    text.as_bytes().to_vec()
}

#[test]
fn a_relative_xdg_directory_counts_as_unset() {
    let home = bytes("/home/ada");
    for value in [None, Some(Vec::new()), Some(bytes("relstate"))] {
        assert_eq!(
            xdg_home_from(value, Some(home.clone()), "XDG_STATE_HOME", &[".local", "state"])
                .expect("dir"),
            bytes("/home/ada/.local/state")
        );
    }
    assert_eq!(
        xdg_home_from(Some(bytes("/srv/state")), None, "XDG_STATE_HOME", &[".local", "state"])
            .expect("dir"),
        bytes("/srv/state")
    );
}

#[test]
fn a_relative_home_counts_as_none() {
    for home in [None, Some(bytes("rel"))] {
        assert!(xdg_home_from(None, home, "XDG_STATE_HOME", &[".local", "state"]).is_err());
    }
}

#[test]
fn an_absolute_xdg_directory_need_not_be_utf8() {
    let value = b"/srv/st\xffte".to_vec();
    assert_eq!(
        xdg_home_from(Some(value.clone()), None, "XDG_STATE_HOME", &[".local", "state"])
            .expect("dir"),
        value
    );
}

#[test]
fn a_missing_home_names_the_variable_to_set() {
    assert_eq!(
        xdg_home_from(None, None, "XDG_CONFIG_HOME", &[".config"]),
        Err("No absolute home directory, set XDG_CONFIG_HOME.".to_string())
    );
}

#[test]
fn the_files_go_under_things() {
    assert_eq!(
        append_log_dir(None, Some(bytes("/home/ada"))).expect("dir"),
        bytes("/home/ada/.local/state/things/append-log")
    );
    assert_eq!(
        append_log_dir(Some(bytes("/var/lib/")), None).expect("dir"),
        bytes("/var/lib/things/append-log")
    );
    assert_eq!(
        auth_file_path(None, Some(bytes("/"))).expect("path"),
        bytes("/.config/things/auth.json")
    );
    assert_eq!(
        auth_file_path(Some(bytes("/etc/xdg")), None).expect("path"),
        bytes("/etc/xdg/things/auth.json")
    );
}
