//! Queries on the text of a decrypted vault: the lines of a `[section]`, and
//! the value of a `key=value` line in it.
use vstd::prelude::*;
use vstd::string::*;
use crate::args::{key_value, split_line};
use crate::crypt::{
    SecretString, decrypt_vault, readable_vault, vault_text, wrong_pass_phrase,
    wrong_pass_phrase_message,
};
use crate::error_string::Error;
use crate::text::{pieces, split, str_eq, str_views, string_views, trim, trimmed};

verus! {

broadcast use vstd::string::group_string_axioms;

/// Whether the section was found.
pub enum Status {
    Initial,
    SectionFound,
}

/// The line that opens `section`: its name in square brackets.
pub open spec fn header_of(section: Seq<char>) -> Seq<char> {
    seq!['['] + section + seq![']']
}

/// The non-empty lines up to the next line that starts with `[`.
pub open spec fn section_body(lines: Seq<Seq<char>>) -> Seq<Seq<char>>
    decreases lines.len(),
{
    if lines.len() == 0 {
        Seq::empty()
    } else if lines[0].len() == 0 {
        section_body(lines.drop_first())
    } else if lines[0][0] == '[' {
        Seq::empty()
    } else {
        seq![lines[0]] + section_body(lines.drop_first())
    }
}

/// The body of the section that opens at the first line equal to `header`;
/// empty where no line is.
pub open spec fn lines_after_header(lines: Seq<Seq<char>>, header: Seq<char>) -> Seq<Seq<char>>
    decreases lines.len(),
{
    if lines.len() == 0 {
        Seq::empty()
    } else if lines[0] == header {
        section_body(lines.drop_first())
    } else {
        lines_after_header(lines.drop_first(), header)
    }
}

/// The lines of `haystack`, each trimmed. (`str::lines` also drops a final
/// empty line and a `\r` before each `\n`; on trimmed lines, where an empty
/// line is skipped and `\r` is whitespace, the queries below give the same.)
pub open spec fn trimmed_lines(haystack: Seq<char>) -> Seq<Seq<char>> {
    pieces(haystack, '\n').map_values(|l: Seq<char>| trimmed(l))
}

/// The trimmed, non-empty lines of `section` in `haystack`.
pub open spec fn section_lines(haystack: Seq<char>, section: Seq<char>) -> Seq<Seq<char>> {
    lines_after_header(trimmed_lines(haystack), header_of(section))
}

/// The value of the first line among `lines` that splits into `key` and a value.
pub open spec fn first_value(lines: Seq<Seq<char>>, key: Seq<char>) -> Option<Seq<char>>
    decreases lines.len(),
{
    if lines.len() == 0 {
        None
    } else {
        match key_value(lines[0]) {
            Some((k, v)) if k == key => Some(v),
            _ => first_value(lines.drop_first(), key),
        }
    }
}

/// Collects the lines of `section`: the non-empty trimmed lines after the
/// first line `[section]`, up to the next line that starts with `[`.
/// The status it returns is always `SectionFound`, also where no line opens
/// the section; the lines are empty then.
pub fn query_section(haystack: &str, section: &str) -> (res: (Status, Vec<String>))
    ensures
        res.0 is SectionFound,
        string_views(res.1@) == section_lines(haystack@, section@),
{
    let mut header = String::from_str("[");
    header.append(section);
    header.append("]");
    proof {
        reveal_strlit("[");
        reveal_strlit("]");
        assert(header@ == header_of(section@));
    }
    let raw = split(haystack, '\n');
    let ghost all = trimmed_lines(haystack@);
    assert(all =~= str_views(raw@).map_values(|l: Seq<char>| trimmed(l)));
    assert(all.skip(0) =~= all);
    let mut status = Status::Initial;
    let mut lines: Vec<String> = Vec::new();
    let mut k: usize = 0;
    while k < raw.len()
        invariant_except_break
            k <= raw.len(),
            all.len() == raw.len(),
            forall|j: int| 0 <= j < raw.len() ==> #[trigger] all[j] == trimmed(raw@[j]@),
            header@ == header_of(section@),
            status is Initial ==> lines@.len() == 0 && section_lines(haystack@, section@)
                == lines_after_header(all.skip(k as int), header@),
            status is SectionFound ==> section_lines(haystack@, section@) == string_views(lines@)
                + section_body(all.skip(k as int)),
        ensures
            status is Initial ==> lines@.len() == 0 && section_lines(haystack@, section@)
                == lines_after_header(all.skip(k as int), header@),
            status is SectionFound ==> section_lines(haystack@, section@) == string_views(lines@)
                + section_body(all.skip(k as int)),
            k == raw.len() || (status is SectionFound && section_body(all.skip(k as int)) == Seq::<Seq<char>>::empty()),
        decreases raw.len() - k,
    {
        assert(str_views(raw@)[k as int] == raw@[k as int]@);
        let line = trim(raw[k]);
        let ghost rest = all.skip(k as int);
        assert(rest[0] == line@);
        assert(rest.drop_first() =~= all.skip(k + 1));
        match status {
            Status::Initial => {
                if str_eq(line, header.as_str()) {
                    status = Status::SectionFound;
                    assert(string_views(lines@) =~= Seq::<Seq<char>>::empty());
                }
            },
            Status::SectionFound => {
                if line.is_empty() {
                    k = k + 1;
                    continue;
                } else if line.get_char(0) == '[' {
                    break;
                }
                let ghost before = string_views(lines@);
                lines.push(line.to_owned());
                assert(string_views(lines@) =~= before.push(line@));
                assert(before + section_body(rest) =~= string_views(lines@) + section_body(all.skip(k + 1)));
            },
        }
        k = k + 1;
    }
    proof {
        if k == raw.len() {
            assert(all.skip(k as int) =~= Seq::<Seq<char>>::empty());
        }
    }
    assert(string_views(lines@) =~= section_lines(haystack@, section@));
    (Status::SectionFound, lines)
}

/// The value of the first line of `section` that splits into `key` and a value.
pub open spec fn section_value(haystack: Seq<char>, section: Seq<char>, key: Seq<char>) -> Option<
    Seq<char>,
> {
    first_value(section_lines(haystack, section), key)
}

/// Looks up `key` in `section`: the trimmed value of the first line of the
/// section that holds exactly one `=` and whose trimmed key is `key`.
pub fn query_section_value(haystack: &str, section: &str, key: &str) -> (value: Option<String>)
    ensures
        match section_value(haystack@, section@, key@) {
            None => value is None,
            Some(v) => value matches Some(s) && s@ == v,
        },
{
    let (status, lines) = query_section(haystack, section);
    let ghost all = string_views(lines@);
    if let Status::SectionFound = status {
        let mut i: usize = 0;
        assert(all.skip(0) =~= all);
        while i < lines.len()
            invariant
                i <= lines.len(),
                all == string_views(lines@),
                all == section_lines(haystack@, section@),
                first_value(all, key@) == first_value(all.skip(i as int), key@),
            decreases lines.len() - i,
        {
            let ghost rest = all.skip(i as int);
            assert(rest[0] == lines@[i as int]@);
            assert(rest.drop_first() =~= all.skip(i + 1));
            match split_line(lines[i].as_str()) {
                Some((k, v)) => {
                    if str_eq(k, key) {
                        return Some(v.to_owned());
                    }
                },
                None => {},
            }
            i = i + 1;
        }
    }
    None
}

/// Decrypts the vault content `vault` with `password` and returns the lines
/// of `section`, to be printed one per line.
pub fn run(vault: &[u8], password: &SecretString, section: &str) -> (r: Result<Vec<String>, Error>)
    requires
        readable_vault(vault@),
    ensures
        match vault_text(password@, vault@) {
            Some(text) => r matches Ok(lines) && string_views(lines@) == section_lines(text, section@),
            None => r is Err,
        },
        wrong_pass_phrase(password@, vault@) ==> (r matches Err(e) && e.0@
            == wrong_pass_phrase_message()),
{
    let haystack = match decrypt_vault(vault, password) {
        Ok(text) => text,
        Err(e) => return Err(e),
    };
    let (status, lines) = query_section(haystack.as_str(), section);
    if let Status::SectionFound = status {
        Ok(lines)
    } else {
        let mut message = String::from_str("Could not find section ");
        message.append(section);
        Err(Error(message))
    }
}

/// Whether `line` is a `key=value` line with exactly the key `key`.
pub open spec fn has_key(line: Seq<char>, key: Seq<char>) -> bool {
    key_value(line) is Some && key_value(line).unwrap().0 == key
}

/// A section opens only at a line equal to `[section]`: that line opens it,
/// and any other first line is passed over.
pub proof fn lemma_section_opens_only_at_header(line: Seq<char>, rest: Seq<Seq<char>>, section: Seq<char>)
    ensures
        line == seq!['['] + section + seq![']'] ==> lines_after_header(
            seq![line] + rest,
            header_of(section),
        ) == section_body(rest),
        line != seq!['['] + section + seq![']'] ==> lines_after_header(
            seq![line] + rest,
            header_of(section),
        ) == lines_after_header(rest, header_of(section)),
{
    let all = seq![line] + rest;
    assert(all[0] == line);
    assert(all.drop_first() =~= rest);
}

/// A section has lines only where some line is `[section]`.
pub proof fn lemma_section_needs_header(lines: Seq<Seq<char>>, section: Seq<char>)
    ensures
        lines_after_header(lines, header_of(section)).len() > 0 ==> lines.contains(
            seq!['['] + section + seq![']'],
        ),
    decreases lines.len(),
{
    if lines.len() > 0 {
        lemma_section_needs_header(lines.drop_first(), section);
        if lines[0] != seq!['['] + section + seq![']'] && lines_after_header(
            lines,
            header_of(section),
        ).len() > 0 {
            let k = choose|k: int|
                0 <= k < lines.drop_first().len() && lines.drop_first()[k] == seq!['['] + section
                    + seq![']'];
            assert(lines[k + 1] == lines.drop_first()[k]);
        }
    }
}

/// The lines of a section body are lines of the text, none of them empty
/// and none starting with `[`.
pub proof fn lemma_section_body_lines(lines: Seq<Seq<char>>)
    ensures
        forall|i: int|
            0 <= i < section_body(lines).len() ==> {
                &&& lines.contains(#[trigger] section_body(lines)[i])
                &&& section_body(lines)[i].len() > 0
                &&& section_body(lines)[i][0] != '['
            },
    decreases lines.len(),
{
    if lines.len() > 0 {
        lemma_section_body_lines(lines.drop_first());
        let body = section_body(lines);
        let rest = section_body(lines.drop_first());
        assert forall|i: int| 0 <= i < body.len() implies {
            &&& lines.contains(#[trigger] body[i])
            &&& body[i].len() > 0
            &&& body[i][0] != '['
        } by {
            if lines[0].len() == 0 {
                let k = choose|k: int| 0 <= k < lines.drop_first().len() && lines.drop_first()[k] == rest[i];
                assert(lines[k + 1] == rest[i]);
            } else if lines[0][0] != '[' {
                if i == 0 {
                    assert(lines[0] == body[0]);
                } else {
                    assert(body[i] == rest[i - 1]);
                    let k = choose|k: int|
                        0 <= k < lines.drop_first().len() && lines.drop_first()[k] == rest[i - 1];
                    assert(lines[k + 1] == rest[i - 1]);
                }
            }
        }
    }
}

/// A looked-up value comes from the first line whose key is exactly the
/// key asked for: that line splits into the key and the value, and no line
/// before it has that key. Where no line has the key, there is no value.
pub proof fn lemma_first_value_exact_key(lines: Seq<Seq<char>>, key: Seq<char>)
    ensures
        first_value(lines, key) matches Some(v) ==> exists|i: int|
            0 <= i < lines.len() && key_value(#[trigger] lines[i]) == Some((key, v)) && forall|
                j: int,
            | 0 <= j < i ==> !has_key(#[trigger] lines[j], key),
        first_value(lines, key) is None <==> forall|i: int|
            0 <= i < lines.len() ==> !has_key(#[trigger] lines[i], key),
    decreases lines.len(),
{
    if lines.len() > 0 {
        let rest = lines.drop_first();
        lemma_first_value_exact_key(rest, key);
        if has_key(lines[0], key) {
            let v = key_value(lines[0]).unwrap().1;
            assert(first_value(lines, key) == Some(v));
            assert(key_value(lines[0]) == Some((key, v)));
        } else {
            assert(first_value(lines, key) == first_value(rest, key));
            if first_value(rest, key) is Some {
                let v = first_value(rest, key).unwrap();
                let i = choose|i: int|
                    0 <= i < rest.len() && key_value(#[trigger] rest[i]) == Some((key, v)) && forall|
                        j: int,
                    | 0 <= j < i ==> !has_key(#[trigger] rest[j], key);
                assert(lines[i + 1] == rest[i]);
                assert forall|j: int| 0 <= j < i + 1 implies !has_key(#[trigger] lines[j], key) by {
                    if j > 0 {
                        assert(lines[j] == rest[j - 1]);
                    }
                }
            } else {
                assert forall|i: int| 0 <= i < lines.len() implies !has_key(#[trigger] lines[i], key) by {
                    if i > 0 {
                        assert(lines[i] == rest[i - 1]);
                    }
                }
            }
            if forall|i: int| 0 <= i < lines.len() ==> !has_key(#[trigger] lines[i], key) {
                assert forall|i: int| 0 <= i < rest.len() implies !has_key(#[trigger] rest[i], key) by {
                    assert(rest[i] == lines[i + 1]);
                }
            }
        }
    }
}

} // verus!
