//! Small text helpers the libretro string formats need: splitting on a
//! separator, trimming leading whitespace, and finding the first occurrence
//! of a character.

use vstd::prelude::*;

use crate::codec::push_char;
use vstd::string::StrSliceExecFns;

verus! {

/// The index of the first occurrence of `c` in `s`, or `s.len()` when `c`
/// does not occur.
pub open spec fn spec_find(s: Seq<char>, c: char) -> int
    decreases s.len(),
{
    if s.len() == 0 {
        0
    } else if s[0] == c {
        0
    } else {
        1 + spec_find(s.drop_first(), c)
    }
}

/// `spec_find` names the first occurrence: everything before it differs
/// from `c`, and it lies inside the sequence exactly when `c` occurs.
pub proof fn lemma_spec_find(s: Seq<char>, c: char)
    ensures
        0 <= spec_find(s, c) <= s.len(),
        spec_find(s, c) < s.len() ==> s[spec_find(s, c)] == c,
        forall|j: int| 0 <= j < spec_find(s, c) ==> s[j] != c,
        spec_find(s, c) == s.len() ==> forall|j: int| 0 <= j < s.len() ==> s[j] != c,
    decreases s.len(),
{
    if s.len() > 0 && s[0] != c {
        lemma_spec_find(s.drop_first(), c);
        assert forall|j: int| 0 <= j < spec_find(s, c) implies s[j] != c by {
            if j > 0 {
                assert(s.drop_first()[j - 1] != c);
            }
        }
        if spec_find(s, c) == s.len() {
            assert forall|j: int| 0 <= j < s.len() implies s[j] != c by {
                if j > 0 {
                    assert(s.drop_first()[j - 1] != c);
                }
            }
        }
    }
}

/// The pieces of `s` between occurrences of `sep`: always at least one
/// piece, one more than there are separators.
pub open spec fn spec_split(s: Seq<char>, sep: char) -> Seq<Seq<char>>
    decreases s.len(),
{
    if s.len() == 0 {
        seq![Seq::<char>::empty()]
    } else if s[0] == sep {
        seq![Seq::<char>::empty()] + spec_split(s.drop_first(), sep)
    } else {
        let rest = spec_split(s.drop_first(), sep);
        seq![seq![s[0]] + rest[0]] + rest.drop_first()
    }
}

/// Splitting yields at least one piece.
pub proof fn lemma_spec_split_len(s: Seq<char>, sep: char)
    ensures
        spec_split(s, sep).len() >= 1,
    decreases s.len(),
{
    if s.len() > 0 {
        lemma_spec_split_len(s.drop_first(), sep);
    }
}

/// Glues an already-read prefix onto the first piece of a split.
pub open spec fn join_first(prefix: Seq<char>, pieces: Seq<Seq<char>>) -> Seq<Seq<char>> {
    seq![prefix + pieces[0]] + pieces.drop_first()
}

/// Whitespace, as the libretro variable format uses it.
pub open spec fn spec_is_space(c: char) -> bool {
    c == ' ' || c == '\t' || c == '\n' || c == '\r'
}

/// `s` without its leading whitespace.
pub open spec fn spec_trim_start(s: Seq<char>) -> Seq<char>
    decreases s.len(),
{
    if s.len() > 0 && spec_is_space(s[0]) {
        spec_trim_start(s.drop_first())
    } else {
        s
    }
}

/// Dropping any run of leading whitespace is trimming, as long as the next
/// character (if any) is not whitespace.
pub proof fn lemma_trim_start_skip(s: Seq<char>, k: int)
    requires
        0 <= k <= s.len(),
        forall|j: int| 0 <= j < k ==> spec_is_space(#[trigger] s[j]),
        k < s.len() ==> !spec_is_space(s[k]),
    ensures
        spec_trim_start(s) == s.skip(k),
    decreases k,
{
    if k == 0 {
        assert(s.skip(0) =~= s);
    } else {
        assert(spec_is_space(s[0]));
        lemma_trim_start_skip(s.drop_first(), k - 1);
        assert(s.drop_first().skip(k - 1) =~= s.skip(k));
    }
}

/// The index of the first occurrence of `c`, if `c` occurs.
pub fn find_char(s: &str, c: char) -> (r: Option<usize>)
    ensures
        match r {
            Some(i) => i == spec_find(s@, c) && i < s@.len() && s@[i as int] == c,
            None => spec_find(s@, c) == s@.len() && !s@.contains(c),
        },
{
    proof {
        lemma_spec_find(s@, c);
    }
    let n = s.unicode_len();
    let mut i: usize = 0;
    while i < n
        invariant
            0 <= i <= n,
            n == s@.len(),
            forall|j: int| 0 <= j < i ==> s@[j] != c,
        decreases n - i,
    {
        if s.get_char(i) == c {
            proof {
                lemma_spec_find(s@, c);
                let f = spec_find(s@, c);
                if f < i {
                    assert(s@[f] != c);
                }
                if f > i {
                    assert(s@[i as int] != c);
                }
            }
            return Some(i);
        }
        i = i + 1;
    }
    proof {
        lemma_spec_find(s@, c);
        if spec_find(s@, c) < s@.len() {
            assert(s@[spec_find(s@, c)] != c);
        }
        if s@.contains(c) {
            let w = choose|w: int| 0 <= w < s@.len() && s@[w] == c;
            assert(s@[w] != c);
        }
    }
    None
}

/// `s` without its leading whitespace, as an owned string.
pub fn trim_start(s: &str) -> (r: String)
    ensures
        r@ == spec_trim_start(s@),
{
    let n = s.unicode_len();
    let mut k: usize = 0;
    while k < n
        invariant
            0 <= k <= n,
            n == s@.len(),
            forall|j: int| 0 <= j < k ==> spec_is_space(#[trigger] s@[j]),
        decreases n - k,
    {
        let c = s.get_char(k);
        if !(c == ' ' || c == '\t' || c == '\n' || c == '\r') {
            proof {
                lemma_trim_start_skip(s@, k as int);
                assert(s@.subrange(k as int, n as int) =~= s@.skip(k as int));
            }
            return s.substring_char(k, n).to_owned();
        }
        k = k + 1;
    }
    proof {
        lemma_trim_start_skip(s@, n as int);
        assert(s@.subrange(n as int, n as int) =~= s@.skip(n as int));
    }
    s.substring_char(n, n).to_owned()
}

/// Splits `s` at every occurrence of `sep`: one piece more than there are
/// separators, in order, separators removed.
pub fn split_string(s: &str, sep: char) -> (r: Vec<String>)
    ensures
        r@.map_values(|p: String| p@) == spec_split(s@, sep),
{
    let n = s.unicode_len();
    let mut done: Vec<String> = Vec::new();
    let mut cur: String = String::new();
    let mut i: usize = 0;
    proof {
        lemma_spec_split_len(s@, sep);
        assert(s@.skip(0) =~= s@);
        let sp = spec_split(s@, sep);
        assert(join_first(Seq::<char>::empty(), sp) =~= sp) by {
            assert(Seq::<char>::empty() + sp[0] =~= sp[0]);
            assert(seq![sp[0]] + sp.drop_first() =~= sp);
        }
        assert(done@.map_values(|p: String| p@) + sp =~= sp);
    }
    while i < n
        invariant
            0 <= i <= n,
            n == s@.len(),
            spec_split(s@, sep) == done@.map_values(|p: String| p@) + join_first(
                cur@,
                spec_split(s@.skip(i as int), sep),
            ),
        decreases n - i,
    {
        let c = s.get_char(i);
        proof {
            let tail = s@.skip(i as int);
            assert(tail.len() > 0);
            assert(tail[0] == s@[i as int]);
            assert(tail.drop_first() =~= s@.skip(i + 1 as int));
            lemma_spec_split_len(s@.skip(i + 1 as int), sep);
        }
        if c == sep {
            let ghost prev = cur@;
            let ghost done_before = done@;
            done.push(cur);
            cur = String::new();
            proof {
                let rest = spec_split(s@.skip(i + 1 as int), sep);
                let tail_split = spec_split(s@.skip(i as int), sep);
                assert(tail_split == seq![Seq::<char>::empty()] + rest);
                assert(join_first(prev, tail_split) =~= seq![prev] + rest) by {
                    assert(tail_split[0] =~= Seq::<char>::empty());
                    assert(tail_split.drop_first() =~= rest);
                    assert(prev + Seq::<char>::empty() =~= prev);
                }
                assert(join_first(cur@, rest) =~= rest) by {
                    assert(cur@ + rest[0] =~= rest[0]);
                    assert(seq![rest[0]] + rest.drop_first() =~= rest);
                }
                assert(done@.map_values(|p: String| p@) =~= done_before.map_values(
                    |p: String| p@,
                ).push(prev));
                assert(done_before.map_values(|p: String| p@) + (seq![prev] + rest) =~= done@
                    .map_values(|p: String| p@) + rest);
            }
        } else {
            let ghost prev = cur@;
            push_char(&mut cur, c);
            proof {
                let rest = spec_split(s@.skip(i + 1 as int), sep);
                let tail_split = spec_split(s@.skip(i as int), sep);
                assert(tail_split == seq![seq![c] + rest[0]] + rest.drop_first());
                assert(join_first(prev, tail_split) =~= join_first(cur@, rest)) by {
                    assert(tail_split[0] =~= seq![c] + rest[0]);
                    assert(tail_split.drop_first() =~= rest.drop_first());
                    assert(prev + (seq![c] + rest[0]) =~= cur@ + rest[0]);
                }
            }
        }
        i = i + 1;
    }
    proof {
        assert(s@.skip(n as int) =~= Seq::<char>::empty());
        assert(spec_split(Seq::<char>::empty(), sep) == seq![Seq::<char>::empty()]);
        assert(join_first(cur@, seq![Seq::<char>::empty()]) =~= seq![cur@]);
    }
    done.push(cur);
    proof {
        assert(done@.map_values(|p: String| p@) =~= spec_split(s@, sep));
    }
    done
}

} // verus!
