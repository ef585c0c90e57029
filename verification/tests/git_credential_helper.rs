use ratatui_vault::crypt::{encrypt_vault, SecretString};
use ratatui_vault::git_credential_helper::{
    command, git_credential, parse_git_query, GitQuery, GitQueryParser,
};

#[test]
fn test_git_query() {
    let stdin = "protocol=https
            host=myhost.com
            username=myuser
            wwwauth[]=Basic realm=\"GitHub\"";

    let url = parse_git_query(stdin);
    assert_eq!(url.unwrap().section_header(), "https://myuser@myhost.com");
}

#[test]
fn git_query_stops_at_blank_line() {
    let r = parse_git_query("protocol=https\nhost=h\n\nusername=u\n");
    assert_eq!(r.unwrap_err().0, "Could not parse git query");
}

#[test]
fn git_query_parser_feeds_lines() {
    let mut p = GitQueryParser::new();
    assert!(p.feed("protocol=ssh\n"));
    assert!(p.feed("host=example.org\n"));
    assert!(p.feed("username=me\n"));
    assert!(!p.feed("  \n"));
    let q = p.finish().unwrap();
    assert_eq!(q.section_header(), "ssh://me@example.org");
}

#[test]
fn command_accepts_get_and_store_only() {
    assert_eq!(command(&["get".to_owned()], &[]), Some("get".to_owned()));
    assert_eq!(command(&["store".to_owned()], &[]), Some("store".to_owned()));
    assert_eq!(command(&["erase".to_owned()], &[]), None);
    assert_eq!(command(&["get".to_owned(), "x".to_owned()], &[]), None);
    assert_eq!(command(&["get".to_owned()], &[["a".to_owned(), "b".to_owned()]]), None);
}

#[test]
fn git_credential_answers_from_the_vault() {
    let password = SecretString::new("master-pass".to_owned());
    let text = "[https://me@host]\nuser=me\npassword = s3cret\n".to_owned();
    let vault = encrypt_vault(text, &password).unwrap();
    let query = GitQuery {
        username: "me".to_owned(),
        protocol: "https".to_owned(),
        host: "host".to_owned(),
    };
    let (q, credential) = git_credential(query, &vault, &password).unwrap();
    assert_eq!(q.host, "host");
    assert_eq!(credential.plaintext(), "s3cret");

    let other = GitQuery {
        username: "you".to_owned(),
        protocol: "https".to_owned(),
        host: "host".to_owned(),
    };
    let e = git_credential(other, &vault, &password).err().unwrap();
    assert_eq!(e.0, "Could not find git password in section https://you@host");
}
