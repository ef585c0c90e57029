//! Command-line arguments and `key=value` lines.
use vstd::prelude::*;
use vstd::string::*;
use crate::text::{chars_of, find, find_char, pieces, split, str_views, string_views, trim, trimmed};

verus! {

broadcast use vstd::string::group_string_axioms;

/// The key and value of a line `key=value`, each trimmed, where the trimmed
/// line holds exactly one `=`.
pub open spec fn key_value(line: Seq<char>) -> Option<(Seq<char>, Seq<char>)> {
    let parts = pieces(trimmed(line), '=');
    if parts.len() == 2 {
        Some((trimmed(parts[0]), trimmed(parts[1])))
    } else {
        None
    }
}

/// Splits a line `key=value` into its trimmed key and value.
pub fn split_line<'a>(line: &'a str) -> (r: Option<(&'a str, &'a str)>)
    ensures
        match key_value(line@) {
            None => r is None,
            Some((k, v)) => r matches Some((key, value)) && key@ == k && value@ == v,
        },
{
    let parts = split(trim(line), '=');
    if parts.len() == 2 {
        assert(str_views(parts@)[0] == parts@[0]@);
        assert(str_views(parts@)[1] == parts@[1]@);
        Some((trim(parts[0]), trim(parts[1])))
    } else {
        None
    }
}

/// The key and value of an option argument `--key=value` (split at the first
/// `=`), or of `--key` (with an empty value); `None` for a positional argument.
pub open spec fn option_of(arg: Seq<char>) -> Option<(Seq<char>, Seq<char>)> {
    if arg.len() >= 2 && arg[0] == '-' && arg[1] == '-' {
        let option = arg.subrange(2, arg.len() as int);
        match find_char(option, '=') {
            Some(i) => Some((option.take(i), option.skip(i + 1))),
            None => Some((option, Seq::<char>::empty())),
        }
    } else {
        None
    }
}

/// The positional arguments among `args` and the options, each in order.
pub open spec fn parsed_args(args: Seq<Seq<char>>) -> (Seq<Seq<char>>, Seq<(Seq<char>, Seq<char>)>)
    decreases args.len(),
{
    if args.len() == 0 {
        (Seq::empty(), Seq::empty())
    } else {
        let (positional, options) = parsed_args(args.drop_last());
        match option_of(args.last()) {
            Some(kv) => (positional, options.push(kv)),
            None => (positional.push(args.last()), options),
        }
    }
}

/// The key and value of each option.
pub open spec fn option_views(options: Seq<[String; 2]>) -> Seq<(Seq<char>, Seq<char>)> {
    options.map_values(|o: [String; 2]| (o@[0]@, o@[1]@))
}

/// Splits a flat array of strings like std::env::args() into positional and option arguments.
/// For example [foo, --foz=baz, bar] -> ([foo, bar], [[foz, baz]])
pub fn parse_args(args: Vec<String>) -> (res: (Vec<String>, Vec<[String; 2]>))
    ensures
        string_views(res.0@) == parsed_args(string_views(args@)).0,
        option_views(res.1@) == parsed_args(string_views(args@)).1,
{
    let mut positional: Vec<String> = Vec::new();
    let mut options: Vec<[String; 2]> = Vec::new();
    let ghost all = string_views(args@);
    let mut i: usize = 0;
    while i < args.len()
        invariant
            i <= args.len(),
            all == string_views(args@),
            string_views(positional@) == parsed_args(all.take(i as int)).0,
            option_views(options@) == parsed_args(all.take(i as int)).1,
        decreases args.len() - i,
    {
        let arg: &str = args[i].as_str();
        assert(all.take(i + 1).drop_last() =~= all.take(i as int));
        assert(all.take(i + 1).last() == arg@);
        let chars = chars_of(arg);
        let n: usize = chars.len();
        if n >= 2 && chars[0] == '-' && chars[1] == '-' {
            let option: &str = arg.substring_char(2, n);
            let option_chars = chars_of(option);
            assert(option_chars@.len() == n - 2);
            let ghost before = option_views(options@);
            assert(arg@[0] == '-' && arg@[1] == '-');
            assert(option@ == arg@.subrange(2, arg@.len() as int));
            match find(&option_chars, '=') {
                Some(j) => {
                    let key: String = option.substring_char(0, j).to_owned();
                    let value: String = option.substring_char(j + 1, n - 2).to_owned();
                    assert(option@.take(j as int) =~= key@);
                    assert(option@.skip(j + 1) =~= value@);
                    assert(find_char(option@, '=') == Some(j as int));
                    assert(arg@.len() >= 2);
                    assert(option_of(arg@) == Some((key@, value@)));
                    let pair: [String; 2] = [key, value];
                    assert(pair@[0]@ == option@.take(j as int));
                    assert(pair@[1]@ == option@.skip(j + 1));
                    options.push(pair);
                    assert(option_views(options@) =~= before.push((pair@[0]@, pair@[1]@)));
                },
                None => {
                    let empty = String::new();
                    assert(option_of(arg@) == Some((option@, empty@)));
                    let pair: [String; 2] = [option.to_owned(), empty];
                    assert(pair@[0]@ == option@);
                    assert(pair@[1]@ == empty@);
                    options.push(pair);
                    assert(option_views(options@) =~= before.push((pair@[0]@, pair@[1]@)));
                },
            }
            assert(option_views(options@) =~= parsed_args(all.take(i + 1)).1);
        } else {
            let ghost before = string_views(positional@);
            positional.push(args[i].clone());
            assert(string_views(positional@) =~= before.push(arg@));
        }
        i = i + 1;
    }
    assert(all.take(args@.len() as int) =~= all);
    (positional, options)
}

} // verus!
