use vstd::prelude::*;

verus! {

/// True when the two strings hold the same characters.
pub fn str_eq(a: &str, b: &str) -> (r: bool)
    ensures
        r == (a@ == b@),
{
    let sa: String = a.to_owned();
    let sb: String = b.to_owned();
    sa == sb
}

/// Length of the longest space-free prefix.
pub open spec fn token_len(s: Seq<char>) -> nat
    decreases s.len(),
{
    if s.len() == 0 || s[0] == ' ' {
        0
    } else {
        1 + token_len(s.skip(1))
    }
}

proof fn lemma_token_len_le(s: Seq<char>)
    ensures
        token_len(s) <= s.len(),
    decreases s.len(),
{
    if s.len() != 0 && s[0] != ' ' {
        lemma_token_len_le(s.skip(1));
    }
}

/// The space-separated words of `s`, empty words dropped.
pub open spec fn split_ws(s: Seq<char>) -> Seq<Seq<char>>
    decreases s.len(),
    via split_ws_decreases
{
    if s.len() == 0 {
        Seq::empty()
    } else if s[0] == ' ' {
        split_ws(s.skip(1))
    } else {
        seq![s.take(token_len(s) as int)] + split_ws(s.skip(token_len(s) as int))
    }
}

#[via_fn]
proof fn split_ws_decreases(s: Seq<char>) {
    if s.len() != 0 && s[0] != ' ' {
        lemma_token_len_le(s);
    }
}

/// `token_len` is exactly the position of the first space (or the length).
pub proof fn lemma_token_len_is(s: Seq<char>, k: int)
    requires
        0 <= k <= s.len(),
        forall|j: int| 0 <= j < k ==> s[j] != ' ',
        k == s.len() || s[k] == ' ',
    ensures
        token_len(s) == k,
    decreases k,
{
    if k == 0 {
    } else {
        assert(s[0] != ' ');
        lemma_token_len_is(s.skip(1), k - 1);
    }
}

pub proof fn lemma_skip_skip(s: Seq<char>, a: int, b: int)
    requires
        0 <= a,
        0 <= b,
        a + b <= s.len(),
    ensures
        s.skip(a).skip(b) =~= s.skip(a + b),
{
}

/// Skipping a leading space does not change the words.
proof fn lemma_split_ws_skip_space(s: Seq<char>, i: int)
    requires
        0 <= i < s.len(),
        s[i] == ' ',
    ensures
        split_ws(s.skip(i)) == split_ws(s.skip(i + 1)),
{
    lemma_skip_skip(s, i, 1);
    assert(s.skip(i)[0] == ' ');
}

/// A word running from `i` up to `j` is the next word of `s.skip(i)`.
proof fn lemma_split_ws_token(s: Seq<char>, i: int, j: int)
    requires
        0 <= i < j <= s.len(),
        forall|t: int| i <= t < j ==> s[t] != ' ',
        j == s.len() || s[j] == ' ',
    ensures
        split_ws(s.skip(i)) == seq![s.subrange(i, j)] + split_ws(s.skip(j)),
{
    let rest = s.skip(i);
    assert forall|t: int| 0 <= t < j - i implies rest[t] != ' ' by {
        assert(s[i + t] != ' ');
    }
    if j - i < rest.len() {
        assert(rest[j - i] == s[j]);
    }
    lemma_token_len_is(rest, j - i);
    assert(rest[0] != ' ');
    assert(rest.take(j - i) =~= s.subrange(i, j));
    lemma_skip_skip(s, i, j - i);
}

/// The space-separated words of `tail`, in order, empty words dropped.
pub fn split_names(tail: &str) -> (names: Vec<String>)
    ensures
        names@.map_values(|s: String| s@) == split_ws(tail@),
{
    let len = tail.unicode_len();
    let mut names: Vec<String> = Vec::new();
    let mut i: usize = 0;
    proof {
        assert(tail@.skip(0) =~= tail@);
        assert(names@.map_values(|s: String| s@) =~= Seq::<Seq<char>>::empty());
        assert(names@.map_values(|s: String| s@) + split_ws(tail@) =~= split_ws(tail@));
    }
    while i < len
        invariant
            len == tail@.len(),
            i <= len,
            split_ws(tail@) == names@.map_values(|s: String| s@) + split_ws(tail@.skip(i as int)),
        decreases len - i,
    {
        if tail.get_char(i) == ' ' {
            proof {
                lemma_split_ws_skip_space(tail@, i as int);
            }
            i = i + 1;
        } else {
            let mut j: usize = i + 1;
            while j < len && tail.get_char(j) != ' '
                invariant
                    len == tail@.len(),
                    i < j <= len,
                    forall|t: int| i <= t < j ==> tail@[t] != ' ',
                decreases len - j,
            {
                j = j + 1;
            }
            let ghost prev = names@.map_values(|s: String| s@);
            let word = tail.substring_char(i, j).to_owned();
            names.push(word);
            proof {
                lemma_split_ws_token(tail@, i as int, j as int);
                assert(names@.map_values(|s: String| s@) =~= prev.push(tail@.subrange(
                    i as int,
                    j as int,
                )));
                assert(prev + (seq![tail@.subrange(i as int, j as int)] + split_ws(tail@.skip(
                    j as int,
                ))) =~= prev.push(tail@.subrange(i as int, j as int)) + split_ws(tail@.skip(
                    j as int,
                )));
            }
            i = j;
        }
    }
    proof {
        assert(names@.map_values(|s: String| s@) + split_ws(tail@.skip(i as int))
            =~= names@.map_values(|s: String| s@));
    }
    names
}

} // verus!
