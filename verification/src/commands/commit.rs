//! Committing: reading an author given as `Name <email>`.
use vstd::prelude::*;
use crate::text::{chars_of, skip_chars, string_of, take_chars, trim_chars, trimmed};

verus! {

/// The index of the first `c` in `s`, if any (`str::find` with a char).
pub open spec fn first_index(s: Seq<char>, c: char) -> Option<int>
    decreases s.len(),
{
    if s.len() == 0 {
        None
    } else {
        match first_index(s.drop_last(), c) {
            Some(i) => Some(i),
            None => if s.last() == c {
                Some(s.len() - 1)
            } else {
                None
            },
        }
    }
}

/// The name and the email of `Name <email>`: the text before the first
/// `<`, and the text between it and the first `>`, each trimmed; nothing
/// when either is missing or the `>` comes first.
pub open spec fn author_parts(s: Seq<char>) -> Option<(Seq<char>, Seq<char>)> {
    match (first_index(s, '<'), first_index(s, '>')) {
        (Some(start), Some(end)) => if start < end {
            Some((trimmed(s.take(start)), trimmed(s.subrange(start + 1, end))))
        } else {
            None
        },
        _ => None,
    }
}

fn find_char(v: &Vec<char>, c: char) -> (r: Option<usize>)
    ensures
        match first_index(v@, c) {
            Some(i) => r == Some(i as usize) && 0 <= i < v@.len(),
            None => r is None,
        },
{
    let mut i: usize = 0;
    proof {
        assert(v@.take(0) =~= Seq::<char>::empty());
    }
    while i < v.len()
        invariant
            i <= v.len(),
            first_index(v@.take(i as int), c) is None,
        decreases v.len() - i,
    {
        proof {
            assert(v@.take(i + 1).drop_last() =~= v@.take(i as int));
        }
        if v[i] == c {
            proof {
                lemma_first_index_prefix(v@, i + 1, c);
            }
            return Some(i);
        }
        i = i + 1;
    }
    proof {
        assert(v@.take(v.len() as int) =~= v@);
    }
    None
}

proof fn lemma_first_index_prefix(s: Seq<char>, n: int, c: char)
    requires
        0 < n <= s.len(),
        first_index(s.take(n - 1), c) is None,
        s[n - 1] == c,
    ensures
        first_index(s, c) == Some(n - 1),
    decreases s.len() - n,
{
    assert(s.take(n).drop_last() =~= s.take(n - 1));
    if n < s.len() {
        lemma_first_index_extends(s, n, c);
    } else {
        assert(s.take(n) =~= s);
    }
}

proof fn lemma_first_index_extends(s: Seq<char>, n: int, c: char)
    requires
        0 < n <= s.len(),
        first_index(s.take(n), c) is Some,
    ensures
        first_index(s, c) == first_index(s.take(n), c),
    decreases s.len() - n,
{
    if n < s.len() {
        assert(s.take(n + 1).drop_last() =~= s.take(n));
        lemma_first_index_extends(s, n + 1, c);
    } else {
        assert(s.take(n) =~= s);
    }
}

/// Reads an author given as `Name <email>` into its name and email.
pub fn parse_author_str(s: &str) -> (r: Option<(String, String)>)
    ensures
        match author_parts(s@) {
            Some((name, email)) => r matches Some((n, e)) && n@ == name && e@ == email,
            None => r is None,
        },
{
    let v = chars_of(s);
    match find_char(&v, '<') {
        Some(start) => match find_char(&v, '>') {
            Some(end) => {
                if start < end {
                    let name = string_of(&trim_chars(&take_chars(&v, start)));
                    let inner = take_chars(&skip_chars(&v, start + 1), end - start - 1);
                    proof {
                        assert(inner@ =~= v@.subrange(start + 1, end as int));
                    }
                    let email = string_of(&trim_chars(&inner));
                    Some((name, email))
                } else {
                    None
                }
            },
            None => None,
        },
        None => None,
    }
}

} // verus!
