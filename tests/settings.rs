use git_push::config::{Conf, ServerConfig};

fn server(ip: &str, port: Option<u32>) -> ServerConfig {
    ServerConfig { ip: ip.to_string(), username: "u".to_string(), password: "SECRET-REDACTED".to_string(), port }
}

#[test]
fn server_is_found_by_name() {
    let mut conf = Conf::new();
    assert!(conf.get_server("web").is_none());
    conf.insert_server("web".to_string(), server("10.0.0.1", Some(2222)));
    conf.insert_server("backup".to_string(), server("10.0.0.2", None));
    assert_eq!(conf.get_server("web").unwrap().ip, "10.0.0.1");
    assert_eq!(conf.get_server("backup").unwrap().ip, "10.0.0.2");
    assert!(conf.get_server("mail").is_none());
}

#[test]
fn a_later_server_of_the_same_name_replaces_the_earlier() {
    let mut conf = Conf::new();
    conf.insert_server("web".to_string(), server("1.1.1.1", None));
    conf.insert_server("web".to_string(), server("2.2.2.2", None));
    assert_eq!(conf.get_server("web").unwrap().ip, "2.2.2.2");
}

#[test]
fn port_defaults_to_the_standard_one() {
    assert_eq!(server("h", None).port_or_default(), 22);
    assert_eq!(server("h", Some(2022)).port_or_default(), 2022);
}

#[test]
fn editor_defaults_to_notepad() {
    let mut conf = Conf::new();
    assert_eq!(conf.editor_command(), "notepad");
    conf.edit_path = Some("vim -n".to_string());
    assert_eq!(conf.editor_command(), "vim -n");
}
