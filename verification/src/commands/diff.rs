//! Merging two vaults: the lines of both, those of only one side marked.
use vstd::prelude::*;
use vstd::string::*;
use crate::crypt::{
    SecretString, decrypt_vault, readable_vault, vault_text, wrong_pass_phrase,
    wrong_pass_phrase_message,
};
use crate::error_string::Error;
use crate::text::pieces;

verus! {

broadcast use vstd::string::group_string_axioms;

/// Where a line of a diff comes from.
#[derive(PartialEq, Eq, Structural, Clone, Copy)]
pub enum DiffSide {
    /// Only in the left (target) text.
    Left,
    /// In both texts.
    Both,
    /// Only in the right (source) text.
    Right,
}

/// One line of a diff.
pub struct DiffLine {
    pub side: DiffSide,
    pub line: String,
}

/// The side and text of each line of a diff.
pub open spec fn diff_views(lines: Seq<DiffLine>) -> Seq<(DiffSide, Seq<char>)> {
    lines.map_values(|d: DiffLine| (d.side, d.line@))
}

/// The line diff that `diff::lines` computes of two texts.
pub uninterp spec fn line_diff(left: Seq<char>, right: Seq<char>) -> Seq<(DiffSide, Seq<char>)>;

/// `line` without one trailing `\r`.
pub open spec fn strip_cr(line: Seq<char>) -> Seq<char> {
    if line.len() > 0 && line.last() == '\r' {
        line.drop_last()
    } else {
        line
    }
}

/// The lines of `text` as `str::lines` yields them: split at `\n`, a `\r`
/// before a `\n` dropped, and no empty line after a final `\n`.
pub open spec fn str_lines(text: Seq<char>) -> Seq<Seq<char>> {
    if text.len() == 0 {
        Seq::empty()
    } else {
        let p = pieces(text, '\n');
        let body = p.drop_last().map_values(|l: Seq<char>| strip_cr(l));
        if p.last().len() == 0 {
            body
        } else {
            body.push(p.last())
        }
    }
}

/// Whether `text` ends with `\n`.
pub open spec fn ends_with_newline(text: Seq<char>) -> bool {
    text.len() > 0 && text.last() == '\n'
}

/// The lines that `diff::lines` compares: those of `str::lines`, and one
/// empty line more where the text ends with `\n`.
pub open spec fn diff_input_lines(text: Seq<char>) -> Seq<Seq<char>> {
    if ends_with_newline(text) {
        str_lines(text).push(Seq::<char>::empty())
    } else {
        str_lines(text)
    }
}

/// The length of a longest common subsequence of `a` and `b`.
pub open spec fn lcs_len(a: Seq<Seq<char>>, b: Seq<Seq<char>>) -> nat
    decreases a.len() + b.len(),
{
    if a.len() == 0 || b.len() == 0 {
        0
    } else if a.last() == b.last() {
        lcs_len(a.drop_last(), b.drop_last()) + 1
    } else {
        let x = lcs_len(a.drop_last(), b);
        let y = lcs_len(a, b.drop_last());
        if x >= y {
            x
        } else {
            y
        }
    }
}

/// The number of `Both` entries of a diff.
pub open spec fn count_both(diff: Seq<(DiffSide, Seq<char>)>) -> nat
    decreases diff.len(),
{
    if diff.len() == 0 {
        0
    } else if diff.last().0 == DiffSide::Both {
        count_both(diff.drop_last()) + 1
    } else {
        count_both(diff.drop_last())
    }
}

/// The texts of the entries on one side of a diff, in order: the left side
/// is made of the `Left` and `Both` entries, the right side of the `Both`
/// and `Right` entries.
pub open spec fn side_lines(diff: Seq<(DiffSide, Seq<char>)>, left: bool) -> Seq<Seq<char>>
    decreases diff.len(),
{
    if diff.len() == 0 {
        Seq::empty()
    } else {
        let rest = side_lines(diff.drop_last(), left);
        let (side, line) = diff.last();
        if side == DiffSide::Both || (left && side == DiffSide::Left) || (!left && side
            == DiffSide::Right) {
            rest.push(line)
        } else {
            rest
        }
    }
}

/// Calls `diff::lines`, converting each `diff::Result` to a [`DiffLine`] (of
/// `Both`, the left copy; the two are equal). The crate's result is named
/// `line_diff`; as the crate's source shows, the `Left` and `Both` entries
/// give back the left text's lines in order, and the `Both` and `Right`
/// entries the right text's. The crate matches equal leading and trailing
/// lines and fills the classic table of longest common subsequences for the
/// lines between, so the `Both` entries are as many as a longest common
/// subsequence of the two texts' lines has, one more for the empty line it
/// appends where both texts end with `\n`.
#[verifier::external_body]
fn diff_lines(left: &str, right: &str) -> (lines: Vec<DiffLine>)
    ensures
        diff_views(lines@) == line_diff(left@, right@),
        side_lines(diff_views(lines@), true) == diff_input_lines(left@),
        side_lines(diff_views(lines@), false) == diff_input_lines(right@),
        count_both(diff_views(lines@)) == lcs_len(str_lines(left@), str_lines(right@)) + (if ends_with_newline(left@) && ends_with_newline(right@) {
            1nat
        } else {
            0nat
        }),
{
    diff::lines(left, right).into_iter().map(|d| match d {
        diff::Result::Left(l) => DiffLine { side: DiffSide::Left, line: l.to_owned() },
        diff::Result::Both(l, _) => DiffLine { side: DiffSide::Both, line: l.to_owned() },
        diff::Result::Right(r) => DiffLine { side: DiffSide::Right, line: r.to_owned() },
    }).collect()
}

/// A line of the merge: `-` before a line only on the left, `+` before a
/// line only on the right, nothing before a line on both sides.
pub open spec fn rendered_line(entry: (DiffSide, Seq<char>)) -> Seq<char> {
    match entry.0 {
        DiffSide::Left => seq!['-'] + entry.1,
        DiffSide::Both => entry.1,
        DiffSide::Right => seq!['+'] + entry.1,
    }
}

/// `parts` joined with `sep` between each two.
pub open spec fn joined(parts: Seq<Seq<char>>, sep: Seq<char>) -> Seq<char>
    decreases parts.len(),
{
    if parts.len() == 0 {
        Seq::empty()
    } else if parts.len() == 1 {
        parts[0]
    } else {
        joined(parts.drop_last(), sep) + sep + parts.last()
    }
}

/// The text of a merge of the diff `diff`.
pub open spec fn rendered(diff: Seq<(DiffSide, Seq<char>)>) -> Seq<char> {
    joined(rendered_lines(diff), seq!['\n'])
}

/// Writes each line of `diff` with its mark, the lines joined with `\n`.
pub fn render_diff(diff: &Vec<DiffLine>) -> (text: String)
    ensures
        text@ == rendered(diff_views(diff@)),
{
    let ghost all = diff_views(diff@);
    let ghost parts = all.map_values(|e: (DiffSide, Seq<char>)| rendered_line(e));
    let mut text = String::new();
    let mut i: usize = 0;
    while i < diff.len()
        invariant
            i <= diff.len(),
            all == diff_views(diff@),
            parts == all.map_values(|e: (DiffSide, Seq<char>)| rendered_line(e)),
            text@ == joined(parts.take(i as int), seq!['\n']),
        decreases diff.len() - i,
    {
        if i > 0 {
            text.append("\n");
        }
        match diff[i].side {
            DiffSide::Left => text.append("-"),
            DiffSide::Both => {},
            DiffSide::Right => text.append("+"),
        }
        text.append(diff[i].line.as_str());
        proof {
            reveal_strlit("\n");
            reveal_strlit("-");
            reveal_strlit("+");
            assert(parts.take(i + 1).drop_last() =~= parts.take(i as int));
            assert(parts[i as int] == rendered_line(all[i as int]));
            if i == 0 {
                assert(parts.take(1) =~= seq![parts[0]]);
            }
            assert(text@ =~= joined(parts.take(i + 1), seq!['\n']));
        }
        i = i + 1;
    }
    assert(parts.take(diff@.len() as int) =~= parts);
    text
}

/// A sequence has all of itself in common with itself.
proof fn lemma_lcs_self(x: Seq<Seq<char>>)
    ensures
        lcs_len(x, x) == x.len(),
    decreases x.len(),
{
    if x.len() > 0 {
        lemma_lcs_self(x.drop_last());
    }
}

/// Each side of a diff holds at least its `Both` entries.
proof fn lemma_side_holds_both(diff: Seq<(DiffSide, Seq<char>)>, left: bool)
    ensures
        side_lines(diff, left).len() >= count_both(diff),
    decreases diff.len(),
{
    if diff.len() > 0 {
        lemma_side_holds_both(diff.drop_last(), left);
    }
}

/// A diff whose sides hold nothing but its `Both` entries is all `Both`: its
/// lines render unmarked, as the left side's lines.
proof fn lemma_only_both(diff: Seq<(DiffSide, Seq<char>)>)
    requires
        side_lines(diff, true).len() == count_both(diff),
        side_lines(diff, false).len() == count_both(diff),
    ensures
        diff.map_values(|e: (DiffSide, Seq<char>)| rendered_line(e)) == side_lines(diff, true),
    decreases diff.len(),
{
    if diff.len() > 0 {
        let prefix = diff.drop_last();
        lemma_side_holds_both(prefix, true);
        lemma_side_holds_both(prefix, false);
        assert(diff.last().0 == DiffSide::Both);
        lemma_only_both(prefix);
        assert(diff.map_values(|e: (DiffSide, Seq<char>)| rendered_line(e)) =~= prefix.map_values(
            |e: (DiffSide, Seq<char>)| rendered_line(e),
        ).push(diff.last().1));
    }
}

/// Merging a text with itself marks no line: the merge is the text's lines
/// joined with `\n`.
pub proof fn lemma_merge_self(text: Seq<char>)
    requires
        side_lines(line_diff(text, text), true) == diff_input_lines(text),
        side_lines(line_diff(text, text), false) == diff_input_lines(text),
        count_both(line_diff(text, text)) == lcs_len(str_lines(text), str_lines(text)) + (if ends_with_newline(text) {
            1nat
        } else {
            0nat
        }),
    ensures
        rendered(line_diff(text, text)) == joined(diff_input_lines(text), seq!['\n']),
{
    let d = line_diff(text, text);
    lemma_lcs_self(str_lines(text));
    lemma_only_both(d);
}

/// What a merge of `left` (target) and `right` (source) is: the rendering
/// of their line diff, whose `Left` and `Both` lines are the target's lines
/// and whose `Both` and `Right` lines are the source's, with as many `Both`
/// lines as a longest common subsequence of the two texts' lines has (one
/// more for the empty line after a final `\n` of both); and where the texts
/// are equal, their lines joined with `\n`, no line marked.
pub open spec fn merged_as(merged: Seq<char>, left: Seq<char>, right: Seq<char>) -> bool {
    &&& merged == rendered(line_diff(left, right))
    &&& side_lines(line_diff(left, right), true) == diff_input_lines(left)
    &&& side_lines(line_diff(left, right), false) == diff_input_lines(right)
    &&& count_both(line_diff(left, right)) == lcs_len(str_lines(left), str_lines(right)) + (if ends_with_newline(left) && ends_with_newline(right) {
        1nat
    } else {
        0nat
    })
    &&& (left == right ==> merged == joined(diff_input_lines(left), seq!['\n']))
    &&& forall|x: Seq<char>|
        #![trigger diff_input_lines(right).contains(x), diff_input_lines(left).contains(x)]
        diff_input_lines(right).contains(x) && !diff_input_lines(left).contains(x)
            ==> rendered_lines(line_diff(left, right)).contains(seq!['+'] + x)
    &&& forall|y: Seq<char>|
        #![trigger diff_input_lines(left).contains(y), diff_input_lines(right).contains(y)]
        diff_input_lines(left).contains(y) && !diff_input_lines(right).contains(y)
            ==> rendered_lines(line_diff(left, right)).contains(seq!['-'] + y)
}

/// The marked lines of a diff, before they are joined.
pub open spec fn rendered_lines(diff: Seq<(DiffSide, Seq<char>)>) -> Seq<Seq<char>> {
    diff.map_values(|e: (DiffSide, Seq<char>)| rendered_line(e))
}

/// A line on one side of a diff only is in an entry of that side, so it is
/// rendered with that side's mark: `+` for the right, `-` for the left.
proof fn lemma_one_side_marked(diff: Seq<(DiffSide, Seq<char>)>, x: Seq<char>, right: bool)
    requires
        side_lines(diff, !right).contains(x),
        !side_lines(diff, right).contains(x),
    ensures
        rendered_lines(diff).contains(if right {
            seq!['+'] + x
        } else {
            seq!['-'] + x
        }),
    decreases diff.len(),
{
    let mark = if right {
        seq!['+'] + x
    } else {
        seq!['-'] + x
    };
    let prefix = diff.drop_last();
    let (side, line) = diff.last();
    assert(rendered_lines(diff) =~= rendered_lines(prefix).push(rendered_line(diff.last())));
    let own = side_lines(diff, right);
    let other = side_lines(diff, !right);
    if side_lines(prefix, !right).contains(x) {
        if side_lines(prefix, right).contains(x) {
            let k = choose|k: int| 0 <= k < side_lines(prefix, right).len() && side_lines(prefix, right)[k] == x;
            assert(own[k] == x);
        }
        lemma_one_side_marked(prefix, x, right);
        let k = choose|k: int| 0 <= k < rendered_lines(prefix).len() && rendered_lines(prefix)[k] == mark;
        assert(rendered_lines(diff)[k] == mark);
    } else {
        let k = choose|k: int| 0 <= k < other.len() && other[k] == x;
        assert(other != side_lines(prefix, !right)) by {
            if other == side_lines(prefix, !right) {
                assert(side_lines(prefix, !right)[k] == x);
            }
        }
        assert(line == x);
        if side == DiffSide::Both {
            assert(own[own.len() - 1] == x);
        }
        assert(rendered_line(diff.last()) == mark);
        assert(rendered_lines(diff)[diff.len() - 1] == mark);
    }
}

/// Apply source onto target, i.e. a line in source not in target is marked
/// with a '+', a line in target not in source with a '-'. No line of either
/// text is lost: the unmarked and `-` lines are the target's lines, the
/// unmarked and `+` lines the source's; and as few lines as can be are
/// marked: the unmarked lines are a longest common subsequence of the two
/// texts' lines (with the empty line after a final `\n` of both). Merging a
/// text with itself marks no line.
pub fn merge_texts(target: &str, source: &str) -> (merged: String)
    ensures
        merged_as(merged@, target@, source@),
{
    let diff = diff_lines(target, source);
    proof {
        if target@ == source@ {
            lemma_merge_self(target@);
        }
        let d = line_diff(target@, source@);
        assert forall|x: Seq<char>|
            #![trigger diff_input_lines(source@).contains(x), diff_input_lines(target@).contains(x)]
            diff_input_lines(source@).contains(x) && !diff_input_lines(target@).contains(x)
            implies rendered_lines(d).contains(seq!['+'] + x) by {
            lemma_one_side_marked(d, x, true);
        }
        assert forall|y: Seq<char>|
            #![trigger diff_input_lines(target@).contains(y), diff_input_lines(source@).contains(y)]
            diff_input_lines(target@).contains(y) && !diff_input_lines(source@).contains(y)
            implies rendered_lines(d).contains(seq!['-'] + y) by {
            lemma_one_side_marked(d, y, false);
        }
    }
    render_diff(&diff)
}

/// Decrypts the vault contents `target` and `source` with `password`, which
/// must open both, and merges their texts.
pub fn merge(target: &[u8], source: &[u8], password: &SecretString) -> (merged: String)
    requires
        readable_vault(target@),
        readable_vault(source@),
        vault_text(password@, target@) is Some,
        vault_text(password@, source@) is Some,
    ensures
        ({
            let left = vault_text(password@, target@).unwrap();
            let right = vault_text(password@, source@).unwrap();
            merged_as(merged@, left, right)
        }),
{
    let left = decrypt_vault(target, password).unwrap();
    let right = decrypt_vault(source, password).unwrap();
    merge_texts(left.as_str(), right.as_str())
}

/// Merges the vaults `target` and `source` where `password` opens both;
/// otherwise returns the error of the first that it does not open.
pub fn try_merge(target: &[u8], source: &[u8], password: &SecretString) -> (r: Result<
    String,
    Error,
>)
    requires
        readable_vault(target@),
        readable_vault(source@),
    ensures
        match (vault_text(password@, target@), vault_text(password@, source@)) {
            (Some(left), Some(right)) => r matches Ok(m) && merged_as(m@, left, right),
            _ => r is Err,
        },
        wrong_pass_phrase(password@, target@) || (vault_text(password@, target@) is Some
            && wrong_pass_phrase(password@, source@)) ==> (r matches Err(e) && e.0@
            == wrong_pass_phrase_message()),
{
    if let Err(e) = decrypt_vault(target, password) {
        return Err(e);
    }
    if let Err(e) = decrypt_vault(source, password) {
        return Err(e);
    }
    Ok(merge(target, source, password))
}

} // verus!
