use vstd::prelude::*;
use vstd::string::*;
use crate::context::ReleaseContext;
use crate::error::{ConfigSection, ReleaseError};

verus! {

/// The characters of `s`, in order.
pub fn to_chars(s: &str) -> (r: Vec<char>)
    ensures
        r@ == s@,
{
    let mut r: Vec<char> = Vec::new();
    for c in it: s.chars()
        invariant
            r@ == it.seq().subrange(0, it.index() as int),
    {
        r.push(c);
    }
    r
}

/// Number of characters before the first `\n` of `s` (all of them if none).
pub open spec fn line_len(s: Seq<char>) -> nat
    decreases s.len(),
{
    if s.len() == 0 || s[0] == '\n' {
        0
    } else {
        1 + line_len(s.drop_first())
    }
}

/// `l` without one trailing carriage return.
pub open spec fn strip_cr(l: Seq<char>) -> Seq<char> {
    if l.len() > 0 && l.last() == '\r' {
        l.drop_last()
    } else {
        l
    }
}

/// The lines of `s`: split at each `\n`, a `\r` right before it dropped;
/// a final line ending adds no empty line.
pub open spec fn lines_of(s: Seq<char>) -> Seq<Seq<char>>
    decreases s.len(),
{
    if s.len() == 0 {
        Seq::empty()
    } else {
        let k = line_len(s) as int;
        if k >= s.len() {
            seq![s]
        } else {
            seq![strip_cr(s.subrange(0, k))] + lines_of(s.subrange(k + 1, s.len() as int))
        }
    }
}

/// `needle` occurs in `hay`.
pub open spec fn has_substring(hay: Seq<char>, needle: Seq<char>) -> bool {
    exists|i: int|
        0 <= i && i + needle.len() <= hay.len() && #[trigger] hay.subrange(i, i + needle.len())
            == needle
}

/// Index of the first line that contains `marker`.
pub open spec fn first_line_with(lines: Seq<Seq<char>>, marker: Seq<char>) -> Option<int> {
    if exists|k: int| 0 <= k < lines.len() && #[trigger] has_substring(lines[k], marker) {
        Some(
            choose|k: int|
                0 <= k < lines.len() && #[trigger] has_substring(lines[k], marker) && forall|j: int|
                    0 <= j < k ==> !has_substring(lines[j], marker),
        )
    } else {
        None
    }
}

/// The lines joined with `\n` between them.
pub open spec fn join_lines(ls: Seq<Seq<char>>) -> Seq<char>
    decreases ls.len(),
{
    if ls.len() == 0 {
        Seq::empty()
    } else if ls.len() == 1 {
        ls[0]
    } else {
        join_lines(ls.drop_last()) + seq!['\n'] + ls.last()
    }
}

/// The changelog section of `text`: the lines strictly between the first
/// line holding `begin` and the first line holding `end`.
pub open spec fn changelog_section(
    text: Seq<char>,
    begin: Seq<char>,
    end: Seq<char>,
    allow_empty: bool,
) -> Result<Seq<char>, ReleaseError> {
    let lines = lines_of(text);
    match (first_line_with(lines, begin), first_line_with(lines, end)) {
        (Some(b), Some(e)) => if e <= b {
            Err(ReleaseError::ChangelogEndBeforeBegin)
        } else if b + 1 == e {
            if allow_empty {
                Ok(Seq::empty())
            } else {
                Err(ReleaseError::ChangelogEmpty)
            }
        } else {
            Ok(join_lines(lines.subrange(b + 1, e)))
        },
        (None, Some(_)) => Err(ReleaseError::ChangelogBeginMissing),
        (Some(_), None) => Err(ReleaseError::ChangelogEndMissing),
        (None, None) => Err(ReleaseError::ChangelogMarkersMissing),
    }
}

proof fn lemma_line_len_step(s: Seq<char>, j: int)
    requires
        0 <= j < s.len(),
        s[j] != '\n',
    ensures
        line_len(s.subrange(j, s.len() as int)) == 1 + line_len(s.subrange(j + 1, s.len() as int)),
{
    assert(s.subrange(j, s.len() as int).drop_first() =~= s.subrange(j + 1, s.len() as int));
}

/// Bounds of the lines of `chars`, as `(start, end)` pairs: line `k` is
/// `chars[start..end]`.
pub(crate) fn line_bounds(chars: &Vec<char>) -> (r: Vec<(usize, usize)>)
    ensures
        r@.len() == lines_of(chars@).len(),
        forall|k: int| 0 <= k < r@.len() ==> (#[trigger] r@[k]).0 <= r@[k].1 <= chars@.len(),
        forall|k: int|
            0 <= k < r@.len() ==> chars@.subrange((#[trigger] r@[k]).0 as int, r@[k].1 as int)
                == lines_of(chars@)[k],
{
    let n = chars.len();
    let mut r: Vec<(usize, usize)> = Vec::new();
    let mut pos: usize = 0;
    assert(chars@.subrange(0, n as int) =~= chars@);
    while pos < n
        invariant
            n == chars@.len(),
            pos <= n,
            r@.len() + lines_of(chars@.subrange(pos as int, n as int)).len() == lines_of(chars@).len(),
            forall|k: int|
                0 <= k < r@.len() ==> #[trigger] r@[k].0 <= r@[k].1 <= chars@.len() && chars@.subrange(
                    r@[k].0 as int,
                    r@[k].1 as int,
                ) == lines_of(chars@)[k],
            forall|k: int|
                0 <= k < lines_of(chars@.subrange(pos as int, n as int)).len() ==> lines_of(chars@)[r@.len() + k]
                    == #[trigger] lines_of(chars@.subrange(pos as int, n as int))[k],
        decreases n - pos,
    {
        let ghost rest = chars@.subrange(pos as int, n as int);
        let mut j: usize = pos;
        while j < n && chars[j] != '\n'
            invariant
                n == chars@.len(),
                pos <= j <= n,
                rest == chars@.subrange(pos as int, n as int),
                line_len(rest) == (j - pos) + line_len(chars@.subrange(j as int, n as int)),
                forall|i: int| pos <= i < j ==> chars@[i] != '\n',
            decreases n - j,
        {
            proof {
                lemma_line_len_step(chars@, j as int);
            }
            j = j + 1;
        }
        let mut end: usize = j;
        if j > pos && chars[j - 1] == '\r' && j < n {
            end = j - 1;
        }
        proof {
            assert(line_len(rest) == j - pos);
            let line = rest.subrange(0, (j - pos) as int);
            assert(line =~= chars@.subrange(pos as int, j as int));
            if j >= n {
                assert(lines_of(rest) == seq![rest]);
                assert(chars@.subrange(pos as int, end as int) =~= rest);
            } else {
                let tail = rest.subrange((j - pos) + 1, rest.len() as int);
                assert(tail =~= chars@.subrange(j + 1, n as int));
                assert(lines_of(rest) == seq![strip_cr(line)] + lines_of(tail));
                assert(chars@.subrange(pos as int, end as int) =~= strip_cr(line));
            }
        }
        let ghost r0 = r@;
        proof {
            assert(lines_of(rest).len() > 0);
            assert(lines_of(chars@)[r0.len() as int + 0] == lines_of(rest)[0]);
            assert(chars@.subrange(pos as int, end as int) == lines_of(chars@)[r0.len() as int]);
        }
        r.push((pos, end));
        proof {
            assert forall|k: int|
                0 <= k < r@.len() implies #[trigger] r@[k].0 <= r@[k].1 <= chars@.len() && chars@.subrange(
                r@[k].0 as int,
                r@[k].1 as int,
            ) == lines_of(chars@)[k] by {
                if k < r0.len() {
                    assert(r@[k] == r0[k]);
                }
            }
            if j < n {
                let tail = chars@.subrange(j + 1, n as int);
                assert forall|k: int| 0 <= k < lines_of(tail).len() implies lines_of(chars@)[r@.len() + k]
                    == #[trigger] lines_of(tail)[k] by {
                    assert(lines_of(rest)[k + 1] == lines_of(tail)[k]);
                }
            }
        }
        if j < n {
            pos = j + 1;
        } else {
            pos = n;
        }
    }
    r
}

/// Whether `needle` occurs in `chars[st..en]`.
fn range_has(chars: &Vec<char>, st: usize, en: usize, needle: &Vec<char>) -> (r: bool)
    requires
        st <= en <= chars@.len(),
    ensures
        r == has_substring(chars@.subrange(st as int, en as int), needle@),
{
    let ghost hay = chars@.subrange(st as int, en as int);
    let m = needle.len();
    if m > en - st {
        return false;
    }
    let last = en - m;
    let mut i: usize = st;
    while i <= last
        invariant
            st <= i <= last + 1,
            last + m == en,
            en <= chars@.len(),
            m == needle@.len(),
            hay == chars@.subrange(st as int, en as int),
            forall|q: int| 0 <= q < i - st ==> #[trigger] hay.subrange(q, q + m) != needle@,
        decreases last + 1 - i,
    {
        let mut j: usize = 0;
        while j < m && chars[i + j] == needle[j]
            invariant
                j <= m,
                i + m <= en,
                en <= chars@.len(),
                m == needle@.len(),
                forall|q: int| 0 <= q < j ==> chars@[i + q] == needle@[q],
            decreases m - j,
        {
            j = j + 1;
        }
        if j == m {
            assert(hay.subrange((i - st) as int, (i - st) + m) =~= needle@);
            return true;
        }
        assert(hay.subrange((i - st) as int, (i - st) + m)[j as int] != needle@[j as int]);
        i = i + 1;
    }
    proof {
        assert forall|q: int|
            0 <= q && q + needle@.len() <= hay.len() implies #[trigger] hay.subrange(
            q,
            q + needle@.len(),
        ) != needle@ by {
            assert(q < i - st);
        }
    }
    false
}

/// Index of the first line, given by `bounds`, that contains `needle`.
fn first_line_containing(chars: &Vec<char>, bounds: &Vec<(usize, usize)>, needle: &Vec<char>) -> (r:
    Option<usize>)
    requires
        bounds@.len() == lines_of(chars@).len(),
        forall|k: int| 0 <= k < bounds@.len() ==> (#[trigger] bounds@[k]).0 <= bounds@[k].1 <= chars@.len(),
        forall|k: int|
            0 <= k < bounds@.len() ==> chars@.subrange((#[trigger] bounds@[k]).0 as int, bounds@[k].1 as int)
                == lines_of(chars@)[k],
    ensures
        match first_line_with(lines_of(chars@), needle@) {
            Some(k) => r matches Some(x) && x as int == k,
            None => r is None,
        },
        r matches Some(x) ==> x < bounds@.len(),
{
    let ghost lines = lines_of(chars@);
    let mut k: usize = 0;
    while k < bounds.len()
        invariant
            lines == lines_of(chars@),
            k <= bounds@.len(),
            bounds@.len() == lines.len(),
            forall|q: int| 0 <= q < bounds@.len() ==> (#[trigger] bounds@[q]).0 <= bounds@[q].1 <= chars@.len(),
            forall|q: int|
                0 <= q < bounds@.len() ==> chars@.subrange((#[trigger] bounds@[q]).0 as int, bounds@[q].1 as int)
                    == lines[q],
            forall|q: int| 0 <= q < k ==> !has_substring(#[trigger] lines[q], needle@),
        decreases bounds.len() - k,
    {
        let (st, en) = bounds[k];
        assert(chars@.subrange(bounds@[k as int].0 as int, bounds@[k as int].1 as int) == lines[k as int]);
        if range_has(chars, st, en, needle) {
            proof {
                assert(has_substring(lines[k as int], needle@));
                let c = first_line_with(lines, needle@)->0;
                assert(first_line_with(lines, needle@) is Some);
                assert(c == k) by {
                    if c < k {
                        assert(!has_substring(lines[c], needle@));
                    }
                    if c > k {
                        assert(!has_substring(lines[k as int], needle@));
                    }
                }
            }
            return Some(k);
        }
        k = k + 1;
    }
    None
}

/// Lines `first..e` of `text`, joined with `\n`.
fn join_range(text: &str, chars: &Vec<char>, bounds: &Vec<(usize, usize)>, first: usize, e: usize) -> (r: String)
    requires
        chars@ == text@,
        first < e <= bounds@.len(),
        bounds@.len() == lines_of(text@).len(),
        forall|q: int| 0 <= q < bounds@.len() ==> (#[trigger] bounds@[q]).0 <= bounds@[q].1 <= chars@.len(),
        forall|q: int|
            0 <= q < bounds@.len() ==> chars@.subrange((#[trigger] bounds@[q]).0 as int, bounds@[q].1 as int)
                == lines_of(text@)[q],
    ensures
        r@ == join_lines(lines_of(text@).subrange(first as int, e as int)),
{
    let ghost lines = lines_of(text@);
    let mut out = String::new();
    let mut k: usize = first;
    while k < e
        invariant
            lines == lines_of(text@),
            chars@ == text@,
            first < e <= bounds@.len(),
            first <= k <= e,
            bounds@.len() == lines.len(),
            forall|q: int| 0 <= q < bounds@.len() ==> (#[trigger] bounds@[q]).0 <= bounds@[q].1 <= chars@.len(),
            forall|q: int|
                0 <= q < bounds@.len() ==> chars@.subrange((#[trigger] bounds@[q]).0 as int, bounds@[q].1 as int)
                    == lines[q],
            out@ == join_lines(lines.subrange(first as int, k as int)),
        decreases e - k,
    {
        let (st, en) = bounds[k];
        let piece = text.substring_char(st, en);
        assert(piece@ == lines[k as int]);
        let ghost ls = lines.subrange(first as int, k + 1);
        assert(ls.drop_last() =~= lines.subrange(first as int, k as int));
        if k > first {
            out.append("\n");
            proof {
                reveal_strlit("\n");
            }
        }
        out.append(piece);
        k = k + 1;
    }
    out
}

/// The section of a changelog between its begin and end marker lines.
pub fn extract_section(text: &str, begin: &str, end: &str, allow_empty: bool) -> (r: Result<
    String,
    ReleaseError,
>)
    ensures
        match changelog_section(text@, begin@, end@, allow_empty) {
            Ok(s) => r matches Ok(x) && x@ == s,
            Err(e) => r == Err::<String, ReleaseError>(e),
        },
{
    let chars = to_chars(text);
    let bounds = line_bounds(&chars);
    let begin_chars = to_chars(begin);
    let end_chars = to_chars(end);
    let ghost lines = lines_of(text@);
    let begin_line = first_line_containing(&chars, &bounds, &begin_chars);
    let end_line = first_line_containing(&chars, &bounds, &end_chars);
    match (begin_line, end_line) {
        (Some(b), Some(e)) => {
            if e <= b {
                return Err(ReleaseError::ChangelogEndBeforeBegin);
            }
            let first = b + 1;
            if first == e {
                if allow_empty {
                    return Ok(String::new());
                }
                return Err(ReleaseError::ChangelogEmpty);
            }
            Ok(join_range(text, &chars, &bounds, first, e))
        },
        (None, Some(_)) => Err(ReleaseError::ChangelogBeginMissing),
        (Some(_), None) => Err(ReleaseError::ChangelogEndMissing),
        (None, None) => Err(ReleaseError::ChangelogMarkersMissing),
    }
}

/// Marker lines with nothing between them give an empty section when
/// empty changelogs are allowed and an error otherwise; an end marker line
/// before the begin marker line is an error either way.
pub proof fn lemma_changelog_markers(text: Seq<char>, begin: Seq<char>, end: Seq<char>)
    ensures
        (first_line_with(lines_of(text), begin) matches Some(b) && first_line_with(
            lines_of(text),
            end,
        ) == Some(b + 1)) ==> changelog_section(text, begin, end, true) == Ok::<
            Seq<char>,
            ReleaseError,
        >(Seq::empty()) && changelog_section(text, begin, end, false) == Err::<
            Seq<char>,
            ReleaseError,
        >(ReleaseError::ChangelogEmpty),
        (first_line_with(lines_of(text), begin) matches Some(b) && first_line_with(
            lines_of(text),
            end,
        ) matches Some(e) && e <= b) ==> forall|allow_empty: bool|
            #[trigger] changelog_section(text, begin, end, allow_empty) == Err::<
                Seq<char>,
                ReleaseError,
            >(ReleaseError::ChangelogEndBeforeBegin),
{
}

/// The changelog capture step.
pub struct CaptureChangelog;

impl CaptureChangelog {
    /// Records the changelog text of this release: the whole of `text` when
    /// no markers are configured, else the section between `markers`, the
    /// rendered begin and end markers.
    pub fn capture(
        &self,
        ctx: &mut ReleaseContext,
        text: &str,
        markers: Option<(String, String)>,
    ) -> (r: Result<(), ReleaseError>)
        ensures
            match old(ctx).config.changelog {
                None => r == Err::<(), ReleaseError>(
                    ReleaseError::MissingSection(ConfigSection::Changelog),
                ) && *final(ctx) == *old(ctx),
                Some(cfg) => if cfg.start_marker_template is None {
                    r is Ok && (final(ctx).changelog matches Some(c) && c@ == text@)
                } else {
                    match markers {
                        None => r == Err::<(), ReleaseError>(
                            ReleaseError::IncompleteChangelogMarkers,
                        ) && *final(ctx) == *old(ctx),
                        Some((b, e)) => match changelog_section(
                            text@,
                            b@,
                            e@,
                            cfg.allow_empty_changelog,
                        ) {
                            Ok(s) => r is Ok && (final(ctx).changelog matches Some(c) && c@ == s),
                            Err(err) => r == Err::<(), ReleaseError>(err) && *final(ctx)
                                == *old(ctx),
                        },
                    }
                },
            },
            r is Ok ==> final(ctx).config == old(ctx).config && final(ctx).version == old(ctx).version && final(ctx).metadata == old(ctx).metadata && final(ctx).dry_run == old(ctx).dry_run,
    {
        let config = ctx.changelog_config()?;
        let changelog = if config.start_marker_template.is_none() {
            String::from_str(text)
        } else {
            match markers {
                None => return Err(ReleaseError::IncompleteChangelogMarkers),
                Some((b, e)) => extract_section(text, b.as_str(), e.as_str(), config.allow_empty_changelog)?,
            }
        };
        ctx.changelog = Some(changelog);
        Ok(())
    }
}

} // verus!
