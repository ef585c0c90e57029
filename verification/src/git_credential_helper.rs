//! A git credential helper: git asks for the password of a URL, the
//! helper answers it from the vault section named after that URL.
//! See [Credential Storage](https://git-scm.com/book/en/v2/Git-Tools-Credential-Storage.html#_credential_caching)
use vstd::prelude::*;
use vstd::string::*;
use crate::args::{key_value, split_line};
use crate::commands::query::{query_section_value, section_value};
use crate::crypt::{
    SecretString, decrypt_vault, readable_vault, vault_text, wrong_pass_phrase,
    wrong_pass_phrase_message,
};
use crate::error_string::Error;
use crate::text::{pieces, split, str_eq, str_views, trim, trimmed};

verus! {

broadcast use vstd::string::group_string_axioms;

/// The git command among the arguments: the one positional argument
/// `get` or `store`, with no options.
pub fn command(positional: &[String], options: &[[String; 2]]) -> (r: Option<String>)
    ensures
        r is Some <==> positional@.len() == 1 && options@.len() == 0 && (positional@[0]@
            == "get"@ || positional@[0]@ == "store"@),
        r matches Some(c) ==> c@ == positional@[0]@,
{
    if positional.len() == 1 && options.len() == 0 {
        let command = &positional[0];
        if str_eq(command.as_str(), "get") || str_eq(command.as_str(), "store") {
            Some(command.clone())
        } else {
            None
        }
    } else {
        None
    }
}

/// The URL parts of a credential request.
#[derive(Debug)]
pub struct GitQuery {
    pub username: String,
    pub protocol: String,
    pub host: String,
}

/// The vault section that holds the credential of a request:
/// `protocol://username@host`.
pub open spec fn section_name(protocol: Seq<char>, username: Seq<char>, host: Seq<char>) -> Seq<
    char,
> {
    protocol + "://"@ + username + "@"@ + host
}

impl GitQuery {
    /// The name of the vault section for this request: `protocol://username@host`.
    pub fn section_header(&self) -> (header: String)
        ensures
            header@ == section_name(self.protocol@, self.username@, self.host@),
    {
        let mut header = self.protocol.clone();
        header.append("://");
        header.append(self.username.as_str());
        header.append("@");
        header.append(self.host.as_str());
        header
    }
}

/// The fields of a request read so far.
pub struct GitFields {
    pub protocol: Option<Seq<char>>,
    pub username: Option<Seq<char>>,
    pub host: Option<Seq<char>>,
}

/// The fields after one more line: a line `protocol=..`, `username=..` or
/// `host=..` sets that field; any other line changes nothing.
pub open spec fn apply_line(fields: GitFields, line: Seq<char>) -> GitFields {
    match key_value(line) {
        Some((k, v)) => if k == "protocol"@ {
            GitFields { protocol: Some(v), ..fields }
        } else if k == "username"@ {
            GitFields { username: Some(v), ..fields }
        } else if k == "host"@ {
            GitFields { host: Some(v), ..fields }
        } else {
            fields
        },
        None => fields,
    }
}

/// A blank line ends a request.
pub open spec fn ends_request(line: Seq<char>) -> bool {
    trimmed(line).len() == 0
}

/// The fields read from `lines` up to the first blank line.
pub open spec fn fields_of(lines: Seq<Seq<char>>, fields: GitFields) -> GitFields
    decreases lines.len(),
{
    if lines.len() == 0 || ends_request(lines[0]) {
        fields
    } else {
        fields_of(lines.drop_first(), apply_line(fields, lines[0]))
    }
}

/// No field read yet.
pub open spec fn no_fields() -> GitFields {
    GitFields { protocol: None, username: None, host: None }
}

/// Reads a credential request line by line, up to the blank line that ends it.
pub struct GitQueryParser {
    protocol: Option<String>,
    username: Option<String>,
    host: Option<String>,
}

/// The view of an optional string.
pub open spec fn opt_view(s: Option<String>) -> Option<Seq<char>> {
    match s {
        Some(s) => Some(s@),
        None => None,
    }
}

impl View for GitQueryParser {
    type V = GitFields;

    closed spec fn view(&self) -> GitFields {
        GitFields {
            protocol: opt_view(self.protocol),
            username: opt_view(self.username),
            host: opt_view(self.host),
        }
    }
}

impl GitQueryParser {
    /// A parser that has read nothing.
    pub fn new() -> (p: GitQueryParser)
        ensures
            p@ == no_fields(),
    {
        GitQueryParser { protocol: None, username: None, host: None }
    }

    /// Takes one line of the request; returns `false` at the blank line
    /// that ends it (which changes nothing).
    pub fn feed(&mut self, line: &str) -> (more: bool)
        ensures
            more == !ends_request(line@),
            more ==> final(self)@ == apply_line(old(self)@, line@),
            !more ==> final(self)@ == old(self)@,
    {
        if trim(line).is_empty() {
            return false;
        }
        match split_line(line) {
            Some((key, value)) => {
                if str_eq(key, "protocol") {
                    self.protocol = Some(value.to_owned());
                } else if str_eq(key, "username") {
                    self.username = Some(value.to_owned());
                } else if str_eq(key, "host") {
                    self.host = Some(value.to_owned());
                }
            },
            None => {},
        }
        true
    }

    /// The request, where it named protocol, username and host.
    pub fn finish(self) -> (r: Result<GitQuery, Error>)
        ensures
            match (self@.protocol, self@.username, self@.host) {
                (Some(p), Some(u), Some(h)) => r matches Ok(q) && q.protocol@ == p
                    && q.username@ == u && q.host@ == h,
                _ => r matches Err(e) && e.0@ == "Could not parse git query"@,
            },
    {
        match (self.protocol, self.username, self.host) {
            (Some(protocol), Some(username), Some(host)) => Ok(GitQuery { username, protocol, host }),
            _ => Err(Error(String::from_str("Could not parse git query"))),
        }
    }
}

/// git sends these lines, for example
///      protocol=https
///      host=myhost.com
///      username=myuser
///      wwwauth[]=Basic realm="GitHub"
/// [parse_git_query] will then return https://myuser@myhost.com
pub fn parse_git_query(input: &str) -> (r: Result<GitQuery, Error>)
    ensures
        ({
            let f = fields_of(pieces(input@, '\n'), no_fields());
            match (f.protocol, f.username, f.host) {
                (Some(p), Some(u), Some(h)) => r matches Ok(q) && q.protocol@ == p
                    && q.username@ == u && q.host@ == h,
                _ => r matches Err(e) && e.0@ == "Could not parse git query"@,
            }
        }),
{
    let lines = split(input, '\n');
    let ghost all = str_views(lines@);
    let mut parser = GitQueryParser::new();
    let mut i: usize = 0;
    assert(all.skip(0) =~= all);
    if lines.len() == 0 {
        assert(all.skip(0) =~= Seq::<Seq<char>>::empty());
    }
    while i < lines.len()
        invariant
            i <= lines.len(),
            all == str_views(lines@),
            all == pieces(input@, '\n'),
            fields_of(all, no_fields()) == fields_of(all.skip(i as int), parser@),
        ensures
            fields_of(all, no_fields()) == parser@,
        decreases lines.len() - i,
    {
        let ghost rest = all.skip(i as int);
        assert(rest[0] == lines@[i as int]@);
        assert(rest.drop_first() =~= all.skip(i + 1));
        if !parser.feed(lines[i]) {
            break;
        }
        i = i + 1;
        proof {
            if i == lines.len() {
                assert(all.skip(i as int) =~= Seq::<Seq<char>>::empty());
            }
        }
    }
    parser.finish()
}

/// Answers a credential request from the vault content `vault`, decrypted
/// with `master_password`: the `password` of the section named after the
/// request.
pub fn git_credential(query: GitQuery, vault: &[u8], master_password: &SecretString) -> (r: Result<
    (GitQuery, SecretString),
    Error,
>)
    requires
        readable_vault(vault@),
    ensures
        ({
            let section = section_name(query.protocol@, query.username@, query.host@);
            match vault_text(master_password@, vault@) {
                None => r is Err,
                Some(text) => match section_value(text, section, "password"@) {
                    Some(p) => r matches Ok((q, c)) && q == query && c@ == p,
                    None => r matches Err(e) && e.0@ == "Could not find git password in section "@
                        + section,
                },
            }
        }),
        wrong_pass_phrase(master_password@, vault@) ==> (r matches Err(e) && e.0@
            == wrong_pass_phrase_message()),
{
    let section = query.section_header();
    let haystack = match decrypt_vault(vault, master_password) {
        Ok(text) => text,
        Err(e) => return Err(e),
    };
    match query_section_value(haystack.as_str(), section.as_str(), "password") {
        Some(credential) => Ok((query, SecretString::new(credential))),
        None => {
            let mut message = String::from_str("Could not find git password in section ");
            message.append(section.as_str());
            Err(Error(message))
        },
    }
}

} // verus!
