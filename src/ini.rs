use vstd::prelude::*;

use crate::text::{find_first, first_at, occurs_at};

verus! {

/// The text split at every line feed; text without one is a single line.
pub open spec fn split_lines(s: Seq<char>) -> Seq<Seq<char>>
    decreases s.len(),
{
    match first_at(s, "\n"@) {
        Some(i) if 0 <= i < s.len() => seq![s.subrange(0, i)].add(split_lines(s.subrange(i + 1, s.len() as int))),
        _ => seq![s],
    }
}

/// The lines joined with line feeds between them.
pub open spec fn join_lines(ls: Seq<Seq<char>>) -> Seq<char>
    decreases ls.len(),
{
    if ls.len() == 0 {
        Seq::empty()
    } else if ls.len() == 1 {
        ls[0]
    } else {
        join_lines(ls.drop_last()) + "\n"@ + ls.last()
    }
}

/// A value as it is written: `true` and `false` capitalized, anything else as given.
pub open spec fn formatted_value(v: Seq<char>) -> Seq<char> {
    if v == "true"@ {
        "True"@
    } else if v == "false"@ {
        "False"@
    } else {
        v
    }
}

/// A line after setting `key`: a line that starts with `key=` becomes `key=value`.
pub open spec fn edit_line(line: Seq<char>, key: Seq<char>, value: Seq<char>) -> Seq<char> {
    let prefix = key + "="@;
    if line.len() >= prefix.len() && line.subrange(0, prefix.len() as int) == prefix {
        prefix + formatted_value(value)
    } else {
        line
    }
}

/// The lines after applying the changes in order; each change sets every line of its key.
pub open spec fn apply_changes(lines: Seq<Seq<char>>, changes: Seq<(Seq<char>, Seq<char>)>) -> Seq<Seq<char>>
    decreases changes.len(),
{
    if changes.len() == 0 {
        lines
    } else {
        apply_changes(lines, changes.drop_last()).map_values(
            |l: Seq<char>| edit_line(l, changes.last().0, changes.last().1),
        )
    }
}

/// The changes as pairs of character sequences.
pub open spec fn change_views(changes: Seq<(String, String)>) -> Seq<(Seq<char>, Seq<char>)> {
    changes.map_values(|c: (String, String)| (c.0@, c.1@))
}

/// Whether `line` starts with `prefix`.
fn starts_with(line: &str, prefix: &str) -> (r: bool)
    ensures
        r == (line@.len() >= prefix@.len() && line@.subrange(0, prefix@.len() as int) == prefix@),
{
    let n = line.unicode_len();
    let m = prefix.unicode_len();
    if m > n {
        return false;
    }
    let mut i: usize = 0;
    while i < m
        invariant
            n == line@.len(),
            m == prefix@.len(),
            m <= n,
            i <= m,
            forall|k: int| 0 <= k < i ==> line@[k] == prefix@[k],
        decreases m - i,
    {
        if line.get_char(i) != prefix.get_char(i) {
            proof {
                assert(line@.subrange(0, m as int)[i as int] != prefix@[i as int]);
            }
            return false;
        }
        i = i + 1;
    }
    proof {
        assert(line@.subrange(0, m as int) =~= prefix@);
    }
    true
}

/// Writes a value as it appears in the file: `true` and `false` capitalized.
pub fn format_value(value: &String) -> (r: String)
    ensures
        r@ == formatted_value(value@),
{
    if *value == String::from_str("true") {
        String::from_str("True")
    } else if *value == String::from_str("false") {
        String::from_str("False")
    } else {
        value.clone()
    }
}

/// Splits text at every line feed.
pub fn split_at_line_feeds(s: &str) -> (r: Vec<String>)
    ensures
        r@.map_values(|l: String| l@) == split_lines(s@),
{
    proof {
        reveal_strlit("\n");
    }
    let n = s.unicode_len();
    let mut out: Vec<String> = Vec::new();
    let mut start: usize = 0;
    proof {
        assert(s@.subrange(0, n as int) =~= s@);
        assert(out@.map_values(|l: String| l@) + split_lines(s@.subrange(0, n as int)) =~= split_lines(s@));
    }
    loop
        invariant
            n == s@.len(),
            start <= n,
            out@.map_values(|l: String| l@) + split_lines(s@.subrange(start as int, n as int)) == split_lines(s@),
        decreases n - start,
    {
        let rest = s.substring_char(start, n);
        match find_first(rest, "\n") {
            Some(i) => {
                let ghost prev = out@;
                let piece = String::from_str(rest.substring_char(0, i));
                out.push(piece);
                proof {
                    reveal_strlit("\n");
                    let r = s@.subrange(start as int, n as int);
                    assert(rest@ == r);
                    assert(occurs_at(r, "\n"@, i as int));
                    assert(i + 1 <= r.len());
                    assert(r.subrange(i + 1, r.len() as int) =~= s@.subrange(start + i + 1, n as int));
                    assert(split_lines(r) == seq![r.subrange(0, i as int)].add(split_lines(r.subrange(i + 1, r.len() as int))));
                    assert(out@.map_values(|l: String| l@) =~= prev.map_values(|l: String| l@).push(piece@));
                    assert(out@.map_values(|l: String| l@) + split_lines(s@.subrange(start + i + 1, n as int))
                        =~= prev.map_values(|l: String| l@) + split_lines(r));
                }
                start = start + i + 1;
            },
            None => {
                let ghost prev = out@;
                let piece = String::from_str(rest);
                out.push(piece);
                proof {
                    let r = s@.subrange(start as int, n as int);
                    assert(split_lines(r) == seq![r]);
                    assert(out@.map_values(|l: String| l@) =~= prev.map_values(|l: String| l@) + seq![r]);
                }
                return out;
            },
        }
    }
}

/// Joins lines with a line feed between each two.
pub fn join_with_line_feeds(lines: &Vec<String>) -> (r: String)
    ensures
        r@ == join_lines(lines@.map_values(|l: String| l@)),
{
    let ghost ls = lines@.map_values(|l: String| l@);
    if lines.len() == 0 {
        return String::new();
    }
    let mut out = lines[0].clone();
    let mut k: usize = 1;
    proof {
        assert(ls.subrange(0, 1).len() == 1);
    }
    while k < lines.len()
        invariant
            ls == lines@.map_values(|l: String| l@),
            1 <= k <= lines@.len(),
            out@ == join_lines(ls.subrange(0, k as int)),
        decreases lines@.len() - k,
    {
        proof {
            assert(ls.subrange(0, k + 1).drop_last() =~= ls.subrange(0, k as int));
            assert(ls.subrange(0, k + 1).last() == lines@[k as int]@);
        }
        out = out.concat("\n");
        out = out.concat(lines[k].as_str());
        k = k + 1;
    }
    proof {
        assert(ls.subrange(0, lines@.len() as int) =~= ls);
    }
    out
}

/// Applies configuration changes to the text of an INI file: for each `(key, value)` in
/// order, every line that starts with `key=` becomes `key=value`, with `true` and `false`
/// capitalized. Other lines are kept, and the line structure is unchanged.
pub fn apply_ini_changes(content: &str, changes: &Vec<(String, String)>) -> (r: String)
    ensures
        r@ == join_lines(apply_changes(split_lines(content@), change_views(changes@))),
{
    let mut lines = split_at_line_feeds(content);
    let ghost cv = change_views(changes@);
    let mut c: usize = 0;
    proof {
        assert(cv.subrange(0, 0) =~= Seq::<(Seq<char>, Seq<char>)>::empty());
    }
    while c < changes.len()
        invariant
            cv == change_views(changes@),
            c <= changes@.len(),
            lines@.map_values(|l: String| l@) == apply_changes(split_lines(content@), cv.subrange(0, c as int)),
        decreases changes@.len() - c,
    {
        let key = &changes[c].0;
        let value = format_value(&changes[c].1);
        let prefix = key.clone().concat("=");
        let ghost before = lines@.map_values(|l: String| l@);
        let mut j: usize = 0;
        while j < lines.len()
            invariant
                prefix@ == key@ + "="@,
                value@ == formatted_value(changes@[c as int].1@),
                j <= lines@.len(),
                lines@.len() == before.len(),
                forall|t: int| 0 <= t < j ==> (#[trigger] lines@[t])@ == edit_line(before[t], key@, changes@[c as int].1@),
                forall|t: int| j <= t < lines@.len() ==> (#[trigger] lines@[t])@ == before[t],
            decreases lines@.len() - j,
        {
            if starts_with(lines[j].as_str(), prefix.as_str()) {
                let edited = prefix.clone().concat(value.as_str());
                lines.set(j, edited);
            }
            j = j + 1;
        }
        proof {
            let cs = cv.subrange(0, c + 1);
            assert(cs.drop_last() =~= cv.subrange(0, c as int));
            assert(cs.last() == (key@, changes@[c as int].1@));
            assert(lines@.map_values(|l: String| l@) =~= before.map_values(
                |l: Seq<char>| edit_line(l, cs.last().0, cs.last().1),
            ));
        }
        c = c + 1;
    }
    proof {
        assert(cv.subrange(0, changes@.len() as int) =~= cv);
    }
    join_with_line_feeds(&lines)
}

/// Joining a first line to further lines puts one line feed between them.
pub proof fn lemma_join_front(a: Seq<char>, ls: Seq<Seq<char>>)
    requires
        ls.len() > 0,
    ensures
        join_lines(seq![a].add(ls)) == a + "\n"@ + join_lines(ls),
    decreases ls.len(),
{
    let all = seq![a].add(ls);
    if ls.len() == 1 {
        assert(all.drop_last() =~= seq![a]);
        assert(all.last() == ls[0]);
        assert(join_lines(seq![a]) == a);
        assert(join_lines(ls) == ls[0]);
        assert(join_lines(all) == join_lines(all.drop_last()) + "\n"@ + all.last());
    } else {
        lemma_join_front(a, ls.drop_last());
        assert(all.drop_last() =~= seq![a].add(ls.drop_last()));
        assert(all.last() == ls.last());
        assert(join_lines(all) == join_lines(all.drop_last()) + "\n"@ + all.last());
        assert(join_lines(ls) == join_lines(ls.drop_last()) + "\n"@ + ls.last());
        assert(a + "\n"@ + join_lines(ls) =~= a + "\n"@ + join_lines(ls.drop_last()) + "\n"@ + ls.last());
    }
}

/// Splitting text at its line feeds and joining the lines again gives the text back.
pub proof fn lemma_split_join(s: Seq<char>)
    ensures
        join_lines(split_lines(s)) == s,
    decreases s.len(),
{
    reveal_strlit("\n");
    match first_at(s, "\n"@) {
        Some(i) if 0 <= i < s.len() => {
            let rest = s.subrange(i + 1, s.len() as int);
            lemma_split_join(rest);
            let tail = split_lines(rest);
            assert(tail.len() > 0) by {
                reveal_with_fuel(split_lines, 1);
            }
            lemma_join_front(s.subrange(0, i), tail);
            assert(occurs_at(s, "\n"@, i));
            assert(s.subrange(i, i + 1) == "\n"@);
            assert(s =~= s.subrange(0, i) + "\n"@ + rest);
        },
        _ => {},
    }
}

/// With no changes, the text comes back unchanged.
pub proof fn lemma_no_changes(content: Seq<char>)
    ensures
        join_lines(apply_changes(split_lines(content), Seq::empty())) == content,
{
    lemma_split_join(content);
}

} // verus!
