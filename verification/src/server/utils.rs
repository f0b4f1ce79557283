use vstd::prelude::*;

use crate::search::{first_match, lemma_first_match};
use crate::text::push_char;

verus! {

/// `s` cut at every `sep`: the pieces between separators, empty pieces included
/// (the pieces that `str::split` yields for a one-character pattern).
pub open spec fn split_on(s: Seq<char>, sep: char) -> Seq<Seq<char>>
    decreases s.len(),
{
    if s.len() == 0 {
        seq![Seq::empty()]
    } else {
        let parts = split_on(s.drop_last(), sep);
        if s.last() == sep {
            parts.push(Seq::empty())
        } else {
            parts.update(parts.len() - 1, parts.last().push(s.last()))
        }
    }
}

/// Whether a character is `c`.
pub open spec fn is_char(c: char) -> spec_fn(char) -> bool {
    |x: char| x == c
}

/// The index of the first `c` in `s`, or -1.
pub open spec fn first_index_of(s: Seq<char>, c: char) -> int {
    match first_match(s, is_char(c)) {
        Some(i) => i,
        None => -1,
    }
}

/// A `key=value` piece cut at its first `=`.
pub open spec fn key_value(seg: Seq<char>) -> (Seq<char>, Seq<char>) {
    let p = first_index_of(seg, '=');
    (seg.take(p), seg.skip(p + 1))
}

/// Every `&`-separated piece of the query holds a `=`.
pub open spec fn query_well_formed(q: Seq<char>) -> bool {
    forall|k: int|
        0 <= k < split_on(q, '&').len() ==> first_index_of(#[trigger] split_on(q, '&')[k], '=') >= 0
}

/// Each piece cut at its first `=`.
pub open spec fn key_values(pieces: Seq<Seq<char>>) -> Seq<(Seq<char>, Seq<char>)>
    decreases pieces.len(),
{
    if pieces.len() == 0 {
        Seq::empty()
    } else {
        key_values(pieces.drop_last()).push(key_value(pieces.last()))
    }
}

/// The key-value pairs of a query string, in order.
pub open spec fn query_pairs(q: Seq<char>) -> Seq<(Seq<char>, Seq<char>)> {
    key_values(split_on(q, '&'))
}

/// The views of a sequence of string pairs.
pub open spec fn pair_views(v: Seq<(String, String)>) -> Seq<(Seq<char>, Seq<char>)>
    decreases v.len(),
{
    if v.len() == 0 {
        Seq::empty()
    } else {
        pair_views(v.drop_last()).push((v.last().0@, v.last().1@))
    }
}

proof fn lemma_split_nonempty(s: Seq<char>, sep: char)
    ensures
        split_on(s, sep).len() >= 1,
    decreases s.len(),
{
    if s.len() > 0 {
        lemma_split_nonempty(s.drop_last(), sep);
    }
}

proof fn lemma_first_index_bounds(s: Seq<char>, c: char)
    ensures
        -1 <= first_index_of(s, c) < s.len(),
        first_index_of(s, c) >= 0 ==> s[first_index_of(s, c)] == c,
{
    lemma_first_match(s, is_char(c));
}

/// Whether every `&`-separated piece of `q` holds a `=`, which `get_query_params` needs.
pub fn well_formed_query(q: &str) -> (r: bool)
    ensures
        r == query_well_formed(q@),
{
    let n = q.unicode_len();
    let mut k: usize = 0;
    let mut seen_eq = false;
    proof {
        lemma_split_nonempty(q@.take(0), '&');
        assert(q@.take(0) == Seq::<char>::empty());
    }
    while k < n
        invariant
            n == q@.len(),
            0 <= k <= n,
            split_on(q@.take(k as int), '&').len() >= 1,
            seen_eq == (first_index_of(split_on(q@.take(k as int), '&').last(), '=') >= 0),
            forall|j: int|
                0 <= j < split_on(q@.take(k as int), '&').len() - 1 ==> first_index_of(
                    #[trigger] split_on(q@.take(k as int), '&')[j],
                    '=',
                ) >= 0,
        decreases n - k,
    {
        let c = q.get_char(k);
        let ghost prev = split_on(q@.take(k as int), '&');
        proof {
            assert(q@.take(k + 1).drop_last() == q@.take(k as int));
            assert(q@.take(k + 1).last() == c);
        }
        if c == '&' {
            if !seen_eq {
                proof {
                    assert(split_on(q@.take(k as int), '&').len() - 1 < split_on(q@.take(k + 1), '&').len());
                    assert(split_on(q@.take(k + 1), '&')[prev.len() - 1] == prev.last());
                    lemma_split_prefix(q@, k as int + 1, '&');
                    assert(split_on(q@, '&')[prev.len() - 1] == prev.last());
                    assert(first_index_of(split_on(q@, '&')[prev.len() - 1], '=') < 0);
                }
                return false;
            }
            seen_eq = false;
        } else {
            proof {
                lemma_first_index_push(prev.last(), c, '=');
            }
            if c == '=' {
                seen_eq = true;
            }
        }
        k = k + 1;
    }
    proof {
        assert(q@.take(k as int) == q@);
    }
    seen_eq
}

/// The key and value of a piece being read: before its first `=`, the key is the whole
/// piece; after it, the key and value are those of `key_value`.
pub open spec fn piece_state(seg: Seq<char>, key: Seq<char>, value: Seq<char>, seen_eq: bool) -> bool {
    if first_index_of(seg, '=') >= 0 {
        seen_eq && (key, value) == key_value(seg)
    } else {
        !seen_eq && key == seg && value == Seq::<char>::empty()
    }
}

/// The key-value pairs of a query string: `None` gives none; otherwise the query is cut at
/// every `&` and each piece at its first `=`. Every piece must hold a `=`.
pub fn query_params(query: Option<&str>) -> (r: Vec<(String, String)>)
    requires
        query matches Some(q) ==> query_well_formed(q@),
    ensures
        query matches Some(q) ==> pair_views(r@) == query_pairs(q@),
        query is None ==> r@.len() == 0,
{
    let q = match query {
        None => {
            return Vec::new();
        },
        Some(q) => q,
    };
    let mut r: Vec<(String, String)> = Vec::new();
    let n = q.unicode_len();
    let mut k: usize = 0;
    let mut key = String::new();
    let mut value = String::new();
    let mut seen_eq = false;
    proof {
        lemma_split_nonempty(q@.take(0), '&');
        assert(q@.take(0) == Seq::<char>::empty());
    }
    while k < n
        invariant
            n == q@.len(),
            0 <= k <= n,
            query_well_formed(q@),
            split_on(q@.take(k as int), '&').len() >= 1,
            pair_views(r@) == key_values(split_on(q@.take(k as int), '&').drop_last()),
            piece_state(split_on(q@.take(k as int), '&').last(), key@, value@, seen_eq),
        decreases n - k,
    {
        let c = q.get_char(k);
        let ghost prev = split_on(q@.take(k as int), '&');
        proof {
            assert(q@.take(k + 1).drop_last() == q@.take(k as int));
            assert(q@.take(k + 1).last() == c);
            lemma_split_nonempty(q@.take(k + 1), '&');
        }
        if c == '&' {
            proof {
                lemma_split_prefix(q@, k as int + 1, '&');
                assert(split_on(q@.take(k + 1), '&')[prev.len() - 1] == prev.last());
                assert(split_on(q@, '&')[prev.len() - 1] == prev.last());
                assert(first_index_of(split_on(q@, '&')[prev.len() - 1], '=') >= 0);
            }
            let ghost before = r@;
            r.push((key, value));
            key = String::new();
            value = String::new();
            seen_eq = false;
            proof {
                let next = split_on(q@.take(k + 1), '&');
                assert(next == prev.push(Seq::empty()));
                assert(next.drop_last() == prev);
                assert(prev.drop_last() == prev.drop_last());
                assert(r@.drop_last() == before);
            }
        } else {
            proof {
                lemma_first_index_push(prev.last(), c, '=');
                lemma_first_index_bounds(prev.last(), '=');
            }
            if seen_eq {
                push_char(&mut value, c);
                proof {
                    let seg = prev.last();
                    let p = first_index_of(seg, '=');
                    assert(seg.push(c).take(p) == seg.take(p));
                    assert(seg.push(c).skip(p + 1) == seg.skip(p + 1).push(c));
                }
            } else if c == '=' {
                seen_eq = true;
                proof {
                    let seg = prev.last();
                    assert(seg.push(c).take(seg.len() as int) == seg);
                    assert(seg.push(c).skip(seg.len() as int + 1) == Seq::<char>::empty());
                }
            } else {
                push_char(&mut key, c);
            }
            proof {
                let next = split_on(q@.take(k + 1), '&');
                assert(next.drop_last() == prev.drop_last());
                assert(next.last() == prev.last().push(c));
            }
        }
        k = k + 1;
    }
    proof {
        assert(q@.take(k as int) == q@);
        let parts = split_on(q@, '&');
        assert(first_index_of(parts[parts.len() - 1], '=') >= 0);
    }
    let ghost before = r@;
    r.push((key, value));
    proof {
        assert(r@.drop_last() == before);
    }
    r
}

/// `s` with every `\"` (backslash, quote) replaced by `"`, scanning from the left without
/// overlaps, as `str::replace` does.
pub open spec fn unescaped(s: Seq<char>) -> Seq<char>
    decreases s.len(),
{
    if s.len() == 0 {
        Seq::empty()
    } else if s.len() >= 2 && s[0] == '\\' && s[1] == '"' {
        seq!['"'] + unescaped(s.skip(2))
    } else {
        seq![s[0]] + unescaped(s.skip(1))
    }
}

/// Replaces every escaped quote `\"` in `json` by a plain quote.
pub fn unescape(json: &str) -> (r: String)
    ensures
        r@ == unescaped(json@),
{
    let n = json.unicode_len();
    let mut r = String::new();
    let mut i: usize = 0;
    proof {
        assert(json@.skip(0) == json@);
        assert(r@ + unescaped(json@) =~= unescaped(json@));
    }
    while i < n
        invariant
            n == json@.len(),
            0 <= i <= n,
            r@ + unescaped(json@.skip(i as int)) == unescaped(json@),
        decreases n - i,
    {
        let c = json.get_char(i);
        let ghost rest = json@.skip(i as int);
        if c == '\\' && i + 1 < n && json.get_char(i + 1) == '"' {
            push_char(&mut r, '"');
            proof {
                assert(rest[0] == c && rest[1] == '"');
                assert(rest.skip(2) == json@.skip(i + 2));
                assert(r@ + unescaped(json@.skip(i + 2)) == r@.drop_last() + unescaped(rest)) by {
                    assert(unescaped(rest) == seq!['"'] + unescaped(rest.skip(2)));
                    assert(r@ == r@.drop_last().push('"'));
                    assert(r@.drop_last() + (seq!['"'] + unescaped(rest.skip(2))) =~= r@
                        + unescaped(rest.skip(2)));
                }
            }
            i = i + 2;
        } else {
            push_char(&mut r, c);
            proof {
                assert(rest[0] == c);
                assert(rest.skip(1) == json@.skip(i + 1));
                assert(!(rest.len() >= 2 && rest[0] == '\\' && rest[1] == '"'));
                assert(unescaped(rest) == seq![c] + unescaped(rest.skip(1)));
                assert(r@.drop_last() + (seq![c] + unescaped(rest.skip(1))) =~= r@ + unescaped(
                    rest.skip(1),
                ));
            }
            i = i + 1;
        }
    }
    proof {
        assert(json@.skip(i as int) == Seq::<char>::empty());
        assert(r@ + Seq::<char>::empty() == r@);
    }
    r
}

/// Unescaping never makes a string longer.
pub proof fn lemma_unescape_not_longer(s: Seq<char>)
    ensures
        unescaped(s).len() <= s.len(),
    decreases s.len(),
{
    if s.len() >= 2 && s[0] == '\\' && s[1] == '"' {
        lemma_unescape_not_longer(s.skip(2));
    } else if s.len() > 0 {
        lemma_unescape_not_longer(s.skip(1));
    }
}

/// A string without backslashes is left as it is.
pub proof fn lemma_unescape_without_backslash(s: Seq<char>)
    requires
        !s.contains('\\'),
    ensures
        unescaped(s) == s,
    decreases s.len(),
{
    if s.len() > 0 {
        assert(s[0] != '\\');
        assert forall|c: char| s.skip(1).contains(c) implies s.contains(c) by {
            let j = choose|j: int| 0 <= j < s.skip(1).len() && s.skip(1)[j] == c;
            assert(s[j + 1] == c);
        }
        lemma_unescape_without_backslash(s.skip(1));
        assert(seq![s[0]] + s.skip(1) =~= s);
    }
}

/// The pieces of a prefix, except the last (still growing) one, are pieces of the whole.
proof fn lemma_split_prefix(s: Seq<char>, k: int, sep: char)
    requires
        0 <= k <= s.len(),
    ensures
        split_on(s.take(k), sep).len() <= split_on(s, sep).len(),
        forall|j: int|
            0 <= j < split_on(s.take(k), sep).len() - 1 ==> #[trigger] split_on(s, sep)[j]
                == split_on(s.take(k), sep)[j],
    decreases s.len() - k,
{
    lemma_split_nonempty(s.take(k), sep);
    if k < s.len() {
        lemma_split_prefix(s, k + 1, sep);
        assert(s.take(k + 1).drop_last() == s.take(k));
        lemma_split_nonempty(s.take(k + 1), sep);
    } else {
        assert(s.take(k) == s);
    }
}

/// How the first index of `c` changes when a character is appended.
proof fn lemma_first_index_push(s: Seq<char>, x: char, c: char)
    ensures
        first_index_of(s.push(x), c) == if first_index_of(s, c) >= 0 {
            first_index_of(s, c)
        } else if x == c {
            s.len() as int
        } else {
            -1
        },
{
    lemma_first_match(s, is_char(c));
    assert(s.push(x).drop_last() == s);
    assert(s.push(x).last() == x);
}

} // verus!
