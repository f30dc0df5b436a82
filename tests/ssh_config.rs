use shy::ssh_config::{parse_ssh_config, ConfigError};

fn entries(text: &str) -> Vec<(String, String)> {
    let map = parse_ssh_config(text).expect("config should parse");
    map.iter().map(|(k, v)| (k.clone(), v.clone())).collect()
}

fn pair(a: &str, b: &str) -> (String, String) {
    (a.to_string(), b.to_string())
}

#[test]
fn wildcard_host_is_skipped() {
    assert!(entries("Host *\nHostname foo\n").is_empty());
}

#[test]
fn host_with_hostname() {
    assert_eq!(entries("Host web\nHostname 10.0.0.1\n"), vec![pair("web", "10.0.0.1")]);
}

#[test]
fn host_defaults_to_itself() {
    assert_eq!(entries("Host web\n"), vec![pair("web", "web")]);
}

#[test]
fn redefined_host_keeps_position() {
    let text = "Host a\nHostname 1.1.1.1\nHost b\nHostname 2.2.2.2\nHost a\nHostname 3.3.3.3\n";
    assert_eq!(entries(text), vec![pair("a", "3.3.3.3"), pair("b", "2.2.2.2")]);
}

#[test]
fn order_is_first_appearance() {
    let text = "Host zeta\nHost alpha\nHost *.example\nHost mid\nHost alpha\n";
    let names: Vec<String> = entries(text).into_iter().map(|(k, _)| k).collect();
    assert_eq!(names, vec!["zeta", "alpha", "mid"]);
}

#[test]
fn key_without_value_before_a_comment_is_malformed() {
    match parse_ssh_config("Foo Bar#note\nBaz\n") {
        Err(ConfigError::MalformedLine(toks)) => assert_eq!(toks, vec!["Baz"]),
        Ok(_) => panic!("expected an error"),
    }
    match parse_ssh_config("Host a\nUser#me\n") {
        Err(ConfigError::MalformedLine(toks)) => assert_eq!(toks, vec!["User"]),
        Ok(_) => panic!("expected an error"),
    }
}

#[test]
fn value_with_spaces_is_one_token() {
    // The value runs to the end of the line, so this line has two tokens.
    assert!(entries("Foo Bar Baz\n").is_empty());
}

#[test]
fn single_token_line_is_malformed() {
    match parse_ssh_config("Host a\nOrphan\nHost b\n") {
        Err(ConfigError::MalformedLine(toks)) => assert_eq!(toks, vec!["Orphan"]),
        Ok(_) => panic!("expected an error"),
    }
}

#[test]
fn patterns_clear_the_stanza() {
    for text in ["Host a!b\nHostname x\n", "Host a?\nHostname x\n", "Host a,b\nHostname x\n", "Host a b\nHostname x\n"] {
        assert!(entries(text).is_empty(), "{:?}", text);
    }
}

#[test]
fn directives_ignore_case_and_accept_equals() {
    let text = "HOST=box\nhostNAME = 192.168.1.100\nUser me\n";
    assert_eq!(entries(text), vec![pair("box", "192.168.1.100")]);
}

#[test]
fn hostname_attaches_once() {
    let text = "Host a\nHostname one\nHostname two\n";
    assert_eq!(entries(text), vec![pair("a", "one")]);
}

#[test]
fn comments_and_blank_lines_are_ignored() {
    let text = "# leading comment\n\n   \nHost a\n  # indented comment\n  Hostname a.example.com\n";
    assert_eq!(entries(text), vec![pair("a", "a.example.com")]);
}

#[test]
fn end_of_text_ends_the_last_line() {
    assert_eq!(entries("Host web\nHostname 10.0.0.1"), vec![pair("web", "10.0.0.1")]);
    assert_eq!(entries("Host web"), vec![pair("web", "web")]);
}

#[test]
fn empty_text_gives_empty_table() {
    assert!(entries("").is_empty());
}

#[test]
fn other_directives_do_not_attach() {
    let text = "Host a\nUser root\nPort 22\nHostname a.net\n";
    assert_eq!(entries(text), vec![pair("a", "a.net")]);
}

const TEST_CONFIG: &str = "# Personal hosts
Host homework-server
    HostName homework-server
    User student

Host nixcraft
    Hostname nixcraft

Host docker1
Host nas01
    Hostname 192.168.1.100
    Port 2222

Host docker2
Host docker3
    Hostname docker3.mycloud.net

Host *.internal
    Hostname jump.internal

Host devserver
Host ec2-some-long-name.amazon.probably.com
Host ec2-some-long-namer.amazon.probably.com
    IdentityFile ~/.ssh/aws.pem

Host torrentz-server
    Hostname torrentz-r-us.com
Host midi-files.com

Host *
    ServerAliveInterval 60
";

#[test]
fn test_config() {
    let config = parse_ssh_config(TEST_CONFIG).expect("failed to parse config");
    assert_eq!(11, config.len());

    assert_eq!(
        config.keys().cloned().collect::<Vec<_>>(),
        vec![
            "homework-server",
            "nixcraft",
            "docker1",
            "nas01",
            "docker2",
            "docker3",
            "devserver",
            "ec2-some-long-name.amazon.probably.com",
            "ec2-some-long-namer.amazon.probably.com",
            "torrentz-server",
            "midi-files.com",
        ]
    );
    assert_eq!("torrentz-r-us.com", config.get("torrentz-server").unwrap());
    assert_eq!("docker3.mycloud.net", config.get("docker3").unwrap());
    assert_eq!("192.168.1.100", config.get("nas01").unwrap());
    assert_eq!("midi-files.com", config.get("midi-files.com").unwrap());
}

#[test]
fn comment_ends_with_its_line() {
    assert_eq!(entries("Host a#c\nHost b\n"), vec![pair("a", "a"), pair("b", "b")]);
    assert_eq!(
        entries("Host web#prod\nHostname 1.2.3.4\n"),
        vec![pair("web", "1.2.3.4")]
    );
}

#[test]
fn trailing_comment_after_space_parses() {
    // Both lines have two tokens; the first value keeps its trailing space,
    // which makes it a pattern rather than one host.
    assert_eq!(entries("Host a #c\nHost b\n"), vec![pair("b", "b")]);
    assert!(entries("Host web # prod\nHostname 1.2.3.4\n").is_empty());
}

#[test]
fn comment_line_between_directives() {
    let text = "Host a\n# note\nHostname a.net # where\n";
    assert_eq!(entries(text), vec![pair("a", "a.net ")]);
}
