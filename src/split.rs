use vstd::prelude::*;

verus! {

/// The position of the last occurrence of `c` in `s`, if any.
pub open spec fn last_index_of(s: Seq<char>, c: char) -> Option<int>
    decreases s.len(),
{
    if s.len() == 0 {
        None
    } else if s.last() == c {
        Some(s.len() - 1)
    } else {
        last_index_of(s.drop_last(), c)
    }
}

/// Splitting `line` at the last occurrence of `delimiter`: the part before it
/// and the part after it.
pub open spec fn split_last(line: Seq<char>, delimiter: char) -> Option<(Seq<char>, Seq<char>)> {
    match last_index_of(line, delimiter) {
        Some(i) => Some((line.subrange(0, i), line.subrange(i + 1, line.len() as int))),
        None => None,
    }
}

/// Relies on str::rsplit_once: it splits on the last occurrence of the
/// delimiter and hands back the parts before and after it, or `None` where the
/// delimiter does not occur.
#[verifier::external_body]
fn rsplit_once_char(line: &str, delimiter: char) -> (r: Option<(&str, &str)>)
    ensures
        match r {
            Some((a, b)) => line@ == a@ + seq![delimiter] + b@ && !b@.contains(delimiter),
            None => !line@.contains(delimiter),
        },
{
    line.rsplit_once(delimiter)
}

/// The last occurrence of `c` in `s` is found exactly where it stands.
proof fn lemma_last_index_of(s: Seq<char>, c: char, i: int)
    requires
        0 <= i < s.len(),
        s[i] == c,
        forall|j: int| i < j < s.len() ==> s[j] != c,
    ensures
        last_index_of(s, c) == Some(i),
    decreases s.len(),
{
    if i < s.len() - 1 {
        lemma_last_index_of(s.drop_last(), c, i);
    }
}

/// A sequence without `c` has no last occurrence of it.
proof fn lemma_no_index_of(s: Seq<char>, c: char)
    requires
        !s.contains(c),
    ensures
        last_index_of(s, c) is None,
    decreases s.len(),
{
    if s.len() > 0 {
        assert(s.drop_last().len() < s.len());
        assert forall|j: int| 0 <= j < s.drop_last().len() implies s.drop_last()[j] != c by {
            assert(s[j] == s.drop_last()[j]);
        }
        lemma_no_index_of(s.drop_last(), c);
    }
}

proof fn lemma_last_index_of_found(s: Seq<char>, c: char)
    ensures
        last_index_of(s, c) matches Some(i) ==> 0 <= i < s.len() && s[i] == c && forall|j: int|
            i < j < s.len() ==> s[j] != c,
        last_index_of(s, c) is None ==> !s.contains(c),
    decreases s.len(),
{
    if s.len() > 0 {
        lemma_last_index_of_found(s.drop_last(), c);
        if s.last() != c {
            if let Some(i) = last_index_of(s.drop_last(), c) {
                assert forall|j: int| i < j < s.len() implies s[j] != c by {
                    if j < s.len() - 1 {
                        assert(s[j] == s.drop_last()[j]);
                    }
                }
            }
        }
        if s.last() != c && s.contains(c) {
            let j = choose|j: int| 0 <= j < s.len() && s[j] == c;
            assert(s.drop_last()[j] == c);
        }
    }
}

/// A split puts back together into the line: the key, the delimiter, then a
/// value that holds no delimiter; a line without the delimiter has no split.
pub proof fn lemma_split_last_parts(line: Seq<char>, delimiter: char)
    ensures
        split_last(line, delimiter) matches Some((k, v)) ==> line == k + seq![delimiter] + v
            && !v.contains(delimiter),
        split_last(line, delimiter) is None <==> !line.contains(delimiter),
{
    lemma_last_index_of_found(line, delimiter);
    if let Some(i) = last_index_of(line, delimiter) {
        let k = line.subrange(0, i);
        let v = line.subrange(i + 1, line.len() as int);
        assert(line =~= k + seq![delimiter] + v);
        assert(line.contains(delimiter));
        if v.contains(delimiter) {
            let j = choose|j: int| 0 <= j < v.len() && v[j] == delimiter;
            assert(line[i + 1 + j] == delimiter);
        }
    }
}

/// Splits `line` at the last occurrence of `delimiter` into the group key
/// before it and the value after it; `None` where the delimiter is absent.
pub fn split_line(line: &str, delimiter: char) -> (r: Option<(String, String)>)
    ensures
        match r {
            Some((k, v)) => split_last(line@, delimiter) == Some((k@, v@)),
            None => split_last(line@, delimiter) is None,
        },
{
    match rsplit_once_char(line, delimiter) {
        Some((a, b)) => {
            proof {
                let s = line@;
                let i = a@.len() as int;
                assert(s[i] == delimiter);
                assert forall|j: int| i < j < s.len() implies s[j] != delimiter by {
                    assert(s[j] == b@[j - i - 1]);
                }
                lemma_last_index_of(s, delimiter, i);
                assert(s.subrange(0, i) =~= a@);
                assert(s.subrange(i + 1, s.len() as int) =~= b@);
            }
            Some((a.to_owned(), b.to_owned()))
        },
        None => {
            proof {
                lemma_no_index_of(line@, delimiter);
            }
            None
        },
    }
}

} // verus!
