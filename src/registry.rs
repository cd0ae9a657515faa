use vstd::prelude::*;
use vstd::string::*;
use crate::changelog::{line_bounds, lines_of, to_chars};
use crate::error::ReleaseError;
use crate::version::{parse_version, semver_parse, Version};

verus! {

/// Unicode white space, as `char::is_whitespace` defines it.
pub open spec fn is_ws(c: char) -> bool {
    ||| ('\u{9}' <= c && c <= '\u{d}')
    ||| c == ' '
    ||| c == '\u{85}'
    ||| c == '\u{a0}'
    ||| c == '\u{1680}'
    ||| ('\u{2000}' <= c && c <= '\u{200a}')
    ||| c == '\u{2028}'
    ||| c == '\u{2029}'
    ||| c == '\u{202f}'
    ||| c == '\u{205f}'
    ||| c == '\u{3000}'
}

fn is_whitespace(c: char) -> (r: bool)
    ensures
        r == is_ws(c),
{
    ('\u{9}' <= c && c <= '\u{d}') || c == ' ' || c == '\u{85}' || c == '\u{a0}' || c == '\u{1680}'
        || ('\u{2000}' <= c && c <= '\u{200a}') || c == '\u{2028}' || c == '\u{2029}' || c
        == '\u{202f}' || c == '\u{205f}' || c == '\u{3000}'
}

/// `s` without leading and trailing white space, as the bounds `(a, b)`.
pub open spec fn trim_bounds(s: Seq<char>, a: int, b: int) -> bool {
    &&& 0 <= a <= b <= s.len()
    &&& forall|i: int| 0 <= i < a ==> is_ws(#[trigger] s[i])
    &&& forall|i: int| b <= i < s.len() ==> is_ws(#[trigger] s[i])
    &&& a < b ==> !is_ws(s[a]) && !is_ws(s[b - 1])
}

/// Position of the first `c` in `s`.
#[verifier::opaque]
pub open spec fn first_index(s: Seq<char>, c: char) -> Option<int> {
    if exists|i: int| 0 <= i < s.len() && s[i] == c {
        Some(choose|i: int| 0 <= i < s.len() && s[i] == c && forall|j: int| 0 <= j < i ==> s[j] != c)
    } else {
        None
    }
}

/// The second `"`-separated field of `s`: from after the first `"` to the
/// next `"` or the end.
pub open spec fn second_field(s: Seq<char>) -> Option<Seq<char>> {
    match first_index(s, '"') {
        None => None,
        Some(q) => {
            let rest = s.subrange(q + 1, s.len() as int);
            match first_index(rest, '"') {
                Some(e) => Some(rest.subrange(0, e)),
                None => Some(rest),
            }
        },
    }
}

/// `s` starts with `p`.
pub open spec fn starts_with(s: Seq<char>, p: Seq<char>) -> bool {
    p.len() <= s.len() && s.subrange(0, p.len() as int) == p
}

/// Index of the first line that starts with `p`.
pub open spec fn first_line_starting(lines: Seq<Seq<char>>, p: Seq<char>) -> Option<int> {
    if exists|k: int| 0 <= k < lines.len() && #[trigger] starts_with(lines[k], p) {
        Some(
            choose|k: int|
                0 <= k < lines.len() && #[trigger] starts_with(lines[k], p) && forall|j: int|
                    0 <= j < k ==> !starts_with(lines[j], p),
        )
    } else {
        None
    }
}

/// `s` without leading and trailing white space.
pub open spec fn trimmed(s: Seq<char>) -> Seq<char> {
    let (a, b) = choose|a: int, b: int| trim_bounds(s, a, b);
    s.subrange(a, b)
}

/// The version text that a registry search listing gives for `name`: on the
/// first line that starts with `name = `, trimmed, the second
/// `"`-separated field.
pub open spec fn listed_version_text(listing: Seq<char>, name: Seq<char>) -> Option<Seq<char>> {
    let lines = lines_of(listing);
    match first_line_starting(lines, name + " = "@) {
        None => None,
        Some(k) => second_field(trimmed(lines[k])),
    }
}

proof fn lemma_first_index(s: Seq<char>, c: char, i: int)
    requires
        0 <= i <= s.len(),
        i < s.len() ==> s[i] == c,
        forall|j: int| 0 <= j < i ==> s[j] != c,
    ensures
        first_index(s, c) == if i < s.len() {
            Some(i)
        } else {
            None::<int>
        },
{
    reveal(first_index);
    if i < s.len() {
        let k = choose|k: int| 0 <= k < s.len() && s[k] == c && forall|j: int| 0 <= j < k ==> s[j] != c;
        if k < i {
            assert(s[k] != c);
        }
        if k > i {
            assert(s[i] != c);
        }
    }
}

proof fn lemma_trim_unique(s: Seq<char>, a: int, b: int, a2: int, b2: int)
    requires
        trim_bounds(s, a, b),
        trim_bounds(s, a2, b2),
    ensures
        s.subrange(a, b) == s.subrange(a2, b2),
{
    if a < b && a2 < b2 {
        if a < a2 {
            assert(is_ws(s[a]));
        }
        if a2 < a {
            assert(is_ws(s[a2]));
        }
        if b < b2 {
            assert(is_ws(s[b2 - 1]));
        }
        if b2 < b {
            assert(is_ws(s[b - 1]));
        }
    } else if a < b {
        assert(a2 == b2);
        if a2 <= a {
            assert(is_ws(s[a])) by {
                if a < b2 {
                } else {
                }
            }
        } else {
            assert(is_ws(s[a]));
        }
    } else if a2 < b2 {
        if a <= a2 {
            assert(is_ws(s[a2]));
        } else {
            assert(is_ws(s[a2]));
        }
    } else {
        assert(s.subrange(a, b) =~= s.subrange(a2, b2));
    }
}

/// Whether `chars[st..en]` starts with `p`.
fn range_starts_with(chars: &Vec<char>, st: usize, en: usize, p: &Vec<char>) -> (r: bool)
    requires
        st <= en <= chars@.len(),
    ensures
        r == starts_with(chars@.subrange(st as int, en as int), p@),
{
    if p.len() > en - st {
        return false;
    }
    let mut j: usize = 0;
    while j < p.len()
        invariant
            j <= p@.len(),
            st + p@.len() <= en,
            en <= chars@.len(),
            forall|q: int| 0 <= q < j ==> chars@[st + q] == p@[q],
        decreases p.len() - j,
    {
        if chars[st + j] != p[j] {
            assert(chars@.subrange(st as int, en as int).subrange(0, p@.len() as int)[j as int] != p@[j as int]);
            return false;
        }
        j = j + 1;
    }
    assert(chars@.subrange(st as int, en as int).subrange(0, p@.len() as int) =~= p@);
    true
}

/// Position of the first `c` in `chars[st..en]`, as an absolute index, or `en`.
fn find_char(chars: &Vec<char>, st: usize, en: usize, c: char) -> (r: usize)
    requires
        st <= en <= chars@.len(),
    ensures
        st <= r <= en,
        (r < en) == (first_index(chars@.subrange(st as int, en as int), c) is Some),
        match first_index(chars@.subrange(st as int, en as int), c) {
            Some(i) => r == st + i,
            None => r == en,
        },
{
    let ghost s = chars@.subrange(st as int, en as int);
    let mut i: usize = st;
    while i < en && chars[i] != c
        invariant
            st <= i <= en,
            en <= chars@.len(),
            s == chars@.subrange(st as int, en as int),
            forall|j: int| st <= j < i ==> chars@[j] != c,
        decreases en - i,
    {
        i = i + 1;
    }
    proof {
        assert forall|j: int| 0 <= j < i - st implies s[j] != c by {
            assert(s[j] == chars@[st + j]);
        }
        if i < en {
            assert(s[i - st] == c);
        }
        lemma_first_index(s, c, i - st);
    }
    i
}

/// Index of the first line, given by `bounds`, that starts with `prefix`.
fn first_line_with_prefix(chars: &Vec<char>, bounds: &Vec<(usize, usize)>, prefix: &Vec<char>) -> (r:
    Option<usize>)
    requires
        bounds@.len() == lines_of(chars@).len(),
        forall|k: int| 0 <= k < bounds@.len() ==> (#[trigger] bounds@[k]).0 <= bounds@[k].1 <= chars@.len(),
        forall|k: int|
            0 <= k < bounds@.len() ==> chars@.subrange((#[trigger] bounds@[k]).0 as int, bounds@[k].1 as int)
                == lines_of(chars@)[k],
    ensures
        match first_line_starting(lines_of(chars@), prefix@) {
            Some(k) => r matches Some(x) && x as int == k,
            None => r is None,
        },
        r matches Some(x) ==> x < bounds@.len(),
{
    let ghost lines = lines_of(chars@);
    let mut k: usize = 0;
    while k < bounds.len()
        invariant
            lines == lines_of(chars@),
            k <= bounds@.len(),
            bounds@.len() == lines.len(),
            forall|q: int| 0 <= q < bounds@.len() ==> (#[trigger] bounds@[q]).0 <= bounds@[q].1 <= chars@.len(),
            forall|q: int|
                0 <= q < bounds@.len() ==> chars@.subrange((#[trigger] bounds@[q]).0 as int, bounds@[q].1 as int)
                    == lines[q],
            forall|q: int| 0 <= q < k ==> !starts_with(#[trigger] lines[q], prefix@),
        decreases bounds.len() - k,
    {
        let (st, en) = bounds[k];
        assert(chars@.subrange(bounds@[k as int].0 as int, bounds@[k as int].1 as int) == lines[k as int]);
        if range_starts_with(chars, st, en, prefix) {
            proof {
                let c = first_line_starting(lines, prefix@)->Some_0;
                assert(starts_with(lines[k as int], prefix@));
                assert(first_line_starting(lines, prefix@) is Some);
                assert(c == k) by {
                    if c < k {
                        assert(!starts_with(lines[c], prefix@));
                    }
                    if c > k {
                        assert(!starts_with(lines[k as int], prefix@));
                    }
                }
            }
            return Some(k);
        }
        k = k + 1;
    }
    None
}

/// Bounds of `chars[st..en]` without leading and trailing white space.
fn trim_range(chars: &Vec<char>, st: usize, en: usize) -> (r: (usize, usize))
    requires
        st <= en <= chars@.len(),
    ensures
        st <= r.0 <= r.1 <= en,
        chars@.subrange(r.0 as int, r.1 as int) == trimmed(chars@.subrange(st as int, en as int)),
{
    let ghost line = chars@.subrange(st as int, en as int);
    let mut a: usize = st;
    while a < en && is_whitespace(chars[a])
        invariant
            st <= a <= en,
            en <= chars@.len(),
            forall|i: int| st <= i < a ==> is_ws(chars@[i]),
        decreases en - a,
    {
        a = a + 1;
    }
    let mut b: usize = en;
    while b > a && is_whitespace(chars[b - 1])
        invariant
            a <= b <= en,
            en <= chars@.len(),
            forall|i: int| b <= i < en ==> is_ws(chars@[i]),
        decreases b - a,
    {
        b = b - 1;
    }
    proof {
        let la = (a - st) as int;
        let lb = (b - st) as int;
        assert(trim_bounds(line, la, lb)) by {
            assert forall|i: int| 0 <= i < la implies is_ws(#[trigger] line[i]) by {
                assert(line[i] == chars@[st + i]);
            }
            assert forall|i: int| lb <= i < line.len() implies is_ws(#[trigger] line[i]) by {
                assert(line[i] == chars@[st + i]);
            }
            if la < lb {
                assert(line[la] == chars@[a as int]);
                assert(line[lb - 1] == chars@[b - 1]);
            }
        }
        let (a2, b2) = choose|a2: int, b2: int| trim_bounds(line, a2, b2);
        lemma_trim_unique(line, la, lb, a2, b2);
        assert(line.subrange(la, lb) =~= chars@.subrange(a as int, b as int));
    }
    (a, b)
}

/// Bounds of the second `"`-separated field of `chars[a..b]`.
fn field_bounds(chars: &Vec<char>, a: usize, b: usize) -> (r: Option<(usize, usize)>)
    requires
        a <= b <= chars@.len(),
    ensures
        match r {
            None => second_field(chars@.subrange(a as int, b as int)) is None,
            Some((x, y)) => x <= y <= chars@.len() && second_field(chars@.subrange(a as int, b as int))
                == Some(chars@.subrange(x as int, y as int)),
        },
{
    let ghost t = chars@.subrange(a as int, b as int);
    let q = find_char(chars, a, b, '"');
    if q == b {
        assert(first_index(t, '"') is None);
        return None;
    }
    assert(first_index(t, '"') == Some((q - a) as int));
    let e = find_char(chars, q + 1, b, '"');
    proof {
        let rest = t.subrange((q - a) + 1, t.len() as int);
        assert(rest =~= chars@.subrange(q + 1, b as int));
        match first_index(rest, '"') {
            Some(x) => {
                assert(e == q + 1 + x);
                assert(chars@.subrange(q + 1, e as int) =~= rest.subrange(0, x));
            },
            None => {
                assert(e == b);
            },
        }
    }
    Some((q + 1, e))
}

/// The version a registry search listing gives for the package `name`:
/// `None` when no line lists it or the line holds no quoted field, an error
/// when the field is not a semantic version.
pub fn find_published_version(listing: &str, name: &str) -> (r: Result<Option<Version>, ReleaseError>)
    ensures
        match listed_version_text(listing@, name@) {
            None => r == Ok::<Option<Version>, ReleaseError>(None),
            Some(t) => match semver_parse(t) {
                Some(parts) => r matches Ok(Some(v)) && v.parts() == parts,
                None => r == Err::<Option<Version>, ReleaseError>(ReleaseError::InvalidVersion),
            },
        },
{
    let chars = to_chars(listing);
    let bounds = line_bounds(&chars);
    let prefix_str = String::from_str(name).concat(" = ");
    proof {
        reveal_strlit(" = ");
    }
    let prefix = to_chars(prefix_str.as_str());
    let k = match first_line_with_prefix(&chars, &bounds, &prefix) {
        None => return Ok(None),
        Some(k) => k,
    };
    let (st, en) = bounds[k];
    let (a, b) = trim_range(&chars, st, en);
    let (x, y) = match field_bounds(&chars, a, b) {
        None => return Ok(None),
        Some(b) => b,
    };
    let text = listing.substring_char(x, y);
    match parse_version(text) {
        Some(v) => Ok(Some(v)),
        None => Err(ReleaseError::InvalidVersion),
    }
}

} // verus!
