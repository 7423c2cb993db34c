//! Splitting text at a separator and stripping fixed prefixes.
//!
//! `split_first` is the single notion of "take everything up to the first
//! occurrence of a character": the file format uses it with `'\n'` for
//! lines and with `'.'` inside the fixed-point multiplier.

use vstd::prelude::*;

verus! {

/// Split `s` at the first occurrence of `c`: the part before it and the
/// part after it, or nothing when `c` does not occur.
pub open spec fn split_first(s: Seq<char>, c: char) -> Option<(Seq<char>, Seq<char>)>
    decreases s.len(),
{
    if s.len() == 0 {
        None
    } else if s[0] == c {
        Some((Seq::empty(), s.skip(1)))
    } else {
        match split_first(s.skip(1), c) {
            Some(p) => Some((seq![s[0]] + p.0, p.1)),
            None => None,
        }
    }
}

/// Characterize `split_first` by the index of the first occurrence.
pub proof fn lemma_split_first_at(s: Seq<char>, c: char, k: int)
    requires
        0 <= k < s.len(),
        s[k] == c,
        forall|j: int| 0 <= j < k ==> s[j] != c,
    ensures
        split_first(s, c) == Some((s.subrange(0, k), s.subrange(k + 1, s.len() as int))),
    decreases k,
{
    if k == 0 {
        assert(s.subrange(0, 0) =~= Seq::<char>::empty());
        assert(s.subrange(1, s.len() as int) =~= s.skip(1));
    } else {
        let t = s.skip(1);
        assert(t[k - 1] == c);
        assert(forall|j: int| 0 <= j < k - 1 ==> t[j] == s[j + 1] && s[j + 1] != c);
        lemma_split_first_at(t, c, k - 1);
        assert(seq![s[0]] + t.subrange(0, k - 1) =~= s.subrange(0, k));
        assert(t.subrange(k, t.len() as int) =~= s.subrange(k + 1, s.len() as int));
    }
}

/// When `c` does not occur, `split_first` finds nothing.
pub proof fn lemma_split_first_none(s: Seq<char>, c: char)
    requires
        !s.contains(c),
    ensures
        split_first(s, c) is None,
    decreases s.len(),
{
    if s.len() > 0 {
        assert(s[0] != c);
        assert(!s.skip(1).contains(c)) by {
            if s.skip(1).contains(c) {
                let i = choose|i: int| 0 <= i < s.skip(1).len() && s.skip(1)[i] == c;
                assert(s[i + 1] == c);
            }
        }
        lemma_split_first_none(s.skip(1), c);
    }
}

/// Splitting `before + c + after` at `c` gives `(before, after)` back,
/// provided `before` does not contain `c`.
pub proof fn lemma_split_first_clean(before: Seq<char>, c: char, after: Seq<char>)
    requires
        !before.contains(c),
    ensures
        split_first(before + seq![c] + after, c) == Some((before, after)),
{
    let s = before + seq![c] + after;
    let k = before.len() as int;
    assert(s[k] == c);
    assert(forall|j: int| 0 <= j < k ==> s[j] == before[j]);
    assert(forall|j: int| 0 <= j < k ==> s[j] != c) by {
        if exists|j: int| 0 <= j < k && s[j] == c {
            let j = choose|j: int| 0 <= j < k && s[j] == c;
            assert(before[j] == c);
            assert(before.contains(c));
        }
    }
    lemma_split_first_at(s, c, k);
    assert(s.subrange(0, k) =~= before);
    assert(s.subrange(k + 1, s.len() as int) =~= after);
}

/// A character absent from both parts is absent from their concatenation.
pub proof fn lemma_not_contains_concat(a: Seq<char>, b: Seq<char>, c: char)
    requires
        !a.contains(c),
        !b.contains(c),
    ensures
        !(a + b).contains(c),
{
    if (a + b).contains(c) {
        let i = choose|i: int| 0 <= i < (a + b).len() && (a + b)[i] == c;
        if i < a.len() {
            assert(a[i] == c);
        } else {
            assert(b[i - a.len()] == c);
        }
    }
}

/// Split at the first occurrence of `c`, as `split_first` describes.
pub fn split_at_first<'a>(s: &'a str, c: char) -> (r: Option<(&'a str, &'a str)>)
    ensures
        match split_first(s@, c) {
            Some(p) => r matches Some(q) && q.0@ == p.0 && q.1@ == p.1,
            None => r is None,
        },
{
    let len = s.unicode_len();
    let mut k: usize = 0;
    while k < len
        invariant
            k <= len,
            len == s@.len(),
            forall|j: int| 0 <= j < k ==> s@[j] != c,
        decreases len - k,
    {
        if s.get_char(k) == c {
            let before = s.substring_char(0, k);
            let after = s.substring_char(k + 1, len);
            proof {
                lemma_split_first_at(s@, c, k as int);
            }
            return Some((before, after));
        }
        k = k + 1;
    }
    proof {
        assert(!s@.contains(c)) by {
            if s@.contains(c) {
                let i = choose|i: int| 0 <= i < s@.len() && s@[i] == c;
            }
        }
        lemma_split_first_none(s@, c);
    }
    None
}

/// Strip `key` from the front of `s`, or report that it is not a prefix.
pub fn strip_key<'a>(s: &'a str, key: &str) -> (r: Option<&'a str>)
    ensures
        if key@.is_prefix_of(s@) {
            r matches Some(t) && t@ == s@.skip(key@.len() as int)
        } else {
            r is None
        },
{
    let klen = key.unicode_len();
    let slen = s.unicode_len();
    if slen < klen {
        return None;
    }
    let mut i: usize = 0;
    while i < klen
        invariant
            i <= klen,
            klen == key@.len(),
            slen == s@.len(),
            klen <= slen,
            forall|j: int| 0 <= j < i ==> s@[j] == key@[j],
        decreases klen - i,
    {
        if s.get_char(i) != key.get_char(i) {
            proof {
                assert(!key@.is_prefix_of(s@)) by {
                    if key@.is_prefix_of(s@) {
                        assert(key@ =~= s@.subrange(0, key@.len() as int));
                        assert(key@[i as int] == s@[i as int]);
                    }
                }
            }
            return None;
        }
        i = i + 1;
    }
    let rest = s.substring_char(klen, slen);
    proof {
        assert(key@.is_prefix_of(s@)) by {
            assert(key@ =~= s@.subrange(0, key@.len() as int));
        }
        assert(rest@ =~= s@.skip(key@.len() as int));
    }
    Some(rest)
}

/// Does the text fit on one line, that is, contain no newline?
pub fn is_single_line(s: &str) -> (r: bool)
    ensures
        r == crate::config::line_ok(s@),
{
    let len = s.unicode_len();
    let mut i: usize = 0;
    while i < len
        invariant
            i <= len,
            len == s@.len(),
            forall|j: int| 0 <= j < i ==> s@[j] != '\n',
        decreases len - i,
    {
        if s.get_char(i) == '\n' {
            proof {
                assert(s@.contains('\n'));
            }
            return false;
        }
        i = i + 1;
    }
    proof {
        assert(!s@.contains('\n')) by {
            if s@.contains('\n') {
                let j = choose|j: int| 0 <= j < s@.len() && s@[j] == '\n';
            }
        }
    }
    true
}

} // verus!
