//! Splitting, trimming and comparing pieces of text.
//!
//! The spec functions here give the mathematical meaning of the familiar
//! operations (`split`, `lines`, `trim`, equality) over `Seq<char>`; the
//! exec functions are proved against them.

use vstd::prelude::*;

verus! {

/// The characters that `trim` removes: the Unicode white-space set.
pub open spec fn is_space(c: char) -> bool {
    c == ' ' || c == '\t' || c == '\n' || c == '\r' || c == '\u{b}' || c == '\u{c}'
        || c == '\u{85}' || c == '\u{a0}' || c == '\u{1680}'
        || ('\u{2000}' <= c && c <= '\u{200a}')
        || c == '\u{2028}' || c == '\u{2029}' || c == '\u{202f}' || c == '\u{205f}'
        || c == '\u{3000}'
}

/// Tests whether a character is removed by trimming.
pub fn is_space_char(c: char) -> (r: bool)
    ensures
        r == is_space(c),
{
    c == ' ' || c == '\t' || c == '\n' || c == '\r' || c == '\u{b}' || c == '\u{c}'
        || c == '\u{85}' || c == '\u{a0}' || c == '\u{1680}'
        || ('\u{2000}' <= c && c <= '\u{200a}')
        || c == '\u{2028}' || c == '\u{2029}' || c == '\u{202f}' || c == '\u{205f}'
        || c == '\u{3000}'
}

/// The pieces of `s` between occurrences of the separator `sep`.
/// There is always at least one piece; a separator at either end or two
/// adjacent separators contribute empty pieces.
pub open spec fn split_on(s: Seq<char>, sep: char) -> Seq<Seq<char>>
    decreases s.len(),
{
    if s.len() == 0 {
        seq![Seq::<char>::empty()]
    } else if s[0] == sep {
        seq![Seq::<char>::empty()] + split_on(s.skip(1), sep)
    } else {
        let rest = split_on(s.skip(1), sep);
        seq![seq![s[0]] + rest[0]] + rest.skip(1)
    }
}

pub proof fn lemma_split_on_nonempty(s: Seq<char>, sep: char)
    ensures
        split_on(s, sep).len() >= 1,
    decreases s.len(),
{
    if s.len() > 0 && s[0] != sep {
        lemma_split_on_nonempty(s.skip(1), sep);
    }
}

/// A text without the separator splits into the single piece that is the
/// text itself.
pub proof fn lemma_split_on_absent(s: Seq<char>, sep: char)
    requires
        forall|j: int| 0 <= j < s.len() ==> s[j] != sep,
    ensures
        split_on(s, sep) == seq![s],
    decreases s.len(),
{
    if s.len() == 0 {
        assert(split_on(s, sep) =~~= seq![s]);
    } else {
        lemma_split_on_absent(s.skip(1), sep);
        assert(seq![s[0]] + s.skip(1) =~= s);
        assert(split_on(s, sep) =~~= seq![s]);
    }
}

/// Splitting at the first separator: the piece before it, then the split
/// of what follows it.
pub proof fn lemma_split_on_first(s: Seq<char>, sep: char, k: int)
    requires
        0 <= k < s.len(),
        s[k] == sep,
        forall|j: int| 0 <= j < k ==> s[j] != sep,
    ensures
        split_on(s, sep) == seq![s.take(k)] + split_on(s.skip(k + 1), sep),
    decreases k,
{
    if k == 0 {
        assert(s.take(0) =~= Seq::<char>::empty());
        assert(split_on(s, sep) =~~= seq![s.take(0)] + split_on(s.skip(1), sep));
    } else {
        let t = s.skip(1);
        assert(t[k - 1] == sep);
        assert(forall|j: int| 0 <= j < k - 1 ==> t[j] != sep);
        lemma_split_on_first(t, sep, k - 1);
        let rest = split_on(t, sep);
        assert(rest == seq![t.take(k - 1)] + split_on(t.skip(k), sep));
        assert(rest[0] == t.take(k - 1));
        assert(rest.skip(1) =~~= split_on(t.skip(k), sep));
        assert(seq![s[0]] + t.take(k - 1) =~= s.take(k));
        assert(t.skip(k) =~= s.skip(k + 1));
        assert(split_on(s, sep) =~~= seq![s.take(k)] + split_on(s.skip(k + 1), sep));
    }
}

/// Splits a string at every occurrence of `sep`, as `str::split` does for
/// a single-character pattern.
pub fn split_str(s: &str, sep: char) -> (parts: Vec<String>)
    ensures
        parts@.map_values(|p: String| p@) == split_on(s@, sep),
{
    let n = s.unicode_len();
    let mut parts: Vec<String> = Vec::new();
    let mut start: usize = 0;
    let mut i: usize = 0;
    proof {
        assert(s@.skip(0) =~= s@);
    }
    while i < n
        invariant
            start <= i <= n,
            n == s@.len(),
            forall|j: int| start <= j < i ==> s@[j] != sep,
            split_on(s@, sep) == parts@.map_values(|p: String| p@) + split_on(
                s@.skip(start as int),
                sep,
            ),
        decreases n - i,
    {
        let c = s.get_char(i);
        if c == sep {
            let piece = s.substring_char(start, i).to_owned();
            proof {
                let suf = s@.skip(start as int);
                assert(suf[i - start] == sep);
                assert(forall|j: int| 0 <= j < i - start ==> suf[j] != sep);
                lemma_split_on_first(suf, sep, i - start);
                assert(suf.take(i - start) =~= s@.subrange(start as int, i as int));
                assert(suf.skip(i - start + 1) =~= s@.skip(i + 1));
            }
            let ghost old_parts = parts@;
            parts.push(piece);
            proof {
                assert(parts@.map_values(|p: String| p@) =~~= old_parts.map_values(
                    |p: String| p@,
                ).push(s@.subrange(start as int, i as int)));
                assert(old_parts.map_values(|p: String| p@).push(
                    s@.subrange(start as int, i as int),
                ) + split_on(s@.skip(i + 1), sep) =~~= old_parts.map_values(|p: String| p@) + (seq![
                    s@.subrange(start as int, i as int),
                ] + split_on(s@.skip(i + 1), sep)));
            }
            start = i + 1;
        }
        i += 1;
    }
    let piece = s.substring_char(start, n).to_owned();
    proof {
        let suf = s@.skip(start as int);
        assert(forall|j: int| 0 <= j < suf.len() ==> suf[j] != sep);
        lemma_split_on_absent(suf, sep);
        assert(suf =~= s@.subrange(start as int, n as int));
    }
    let ghost old_parts = parts@;
    parts.push(piece);
    proof {
        assert(parts@.map_values(|p: String| p@) =~~= old_parts.map_values(|p: String| p@).push(
            s@.subrange(start as int, n as int),
        ));
        assert(old_parts.map_values(|p: String| p@).push(s@.subrange(start as int, n as int))
            =~~= old_parts.map_values(|p: String| p@) + seq![s@.subrange(start as int, n as int)]);
    }
    parts
}

/// Leading white space removed.
pub open spec fn trim_start_spec(s: Seq<char>) -> Seq<char>
    decreases s.len(),
{
    if s.len() > 0 && is_space(s[0]) {
        trim_start_spec(s.skip(1))
    } else {
        s
    }
}

/// Trailing white space removed.
pub open spec fn trim_end_spec(s: Seq<char>) -> Seq<char>
    decreases s.len(),
{
    if s.len() > 0 && is_space(s.last()) {
        trim_end_spec(s.drop_last())
    } else {
        s
    }
}

/// White space removed from both ends, as `str::trim` does.
pub open spec fn trim_spec(s: Seq<char>) -> Seq<char> {
    trim_end_spec(trim_start_spec(s))
}

proof fn lemma_trim_start_skip(s: Seq<char>, a: int)
    requires
        0 <= a <= s.len(),
        forall|j: int| 0 <= j < a ==> is_space(s[j]),
        a == s.len() || !is_space(s[a]),
    ensures
        trim_start_spec(s) == s.skip(a),
    decreases a,
{
    if a == 0 {
        assert(s.skip(0) =~= s);
    } else {
        let t = s.skip(1);
        assert(forall|j: int| 0 <= j < a - 1 ==> t[j] == s[j + 1] && is_space(t[j]));
        lemma_trim_start_skip(t, a - 1);
        assert(t.skip(a - 1) =~= s.skip(a));
    }
}

proof fn lemma_trim_end_take(s: Seq<char>, b: int)
    requires
        0 <= b <= s.len(),
        forall|j: int| b <= j < s.len() ==> is_space(s[j]),
        b == 0 || !is_space(s[b - 1]),
    ensures
        trim_end_spec(s) == s.take(b),
    decreases s.len(),
{
    if b == s.len() {
        if s.len() > 0 {
            assert(!is_space(s.last()));
        }
        assert(s.take(b) =~= s);
    } else {
        assert(is_space(s.last()));
        lemma_trim_end_take(s.drop_last(), b);
        assert(s.drop_last().take(b) =~= s.take(b));
    }
}

/// Removes white space from both ends of a string.
pub fn trim_str(s: &str) -> (r: String)
    ensures
        r@ == trim_spec(s@),
{
    let n = s.unicode_len();
    let mut a: usize = 0;
    while a < n && is_space_char(s.get_char(a))
        invariant
            a <= n,
            n == s@.len(),
            forall|j: int| 0 <= j < a ==> is_space(s@[j]),
        decreases n - a,
    {
        a += 1;
    }
    proof {
        lemma_trim_start_skip(s@, a as int);
    }
    let mut b: usize = n;
    while b > a && is_space_char(s.get_char(b - 1))
        invariant
            a <= b <= n,
            n == s@.len(),
            forall|j: int| b <= j < n ==> is_space(s@[j]),
            a == n || !is_space(s@[a as int]),
        decreases b,
    {
        b -= 1;
    }
    let r = s.substring_char(a, b).to_owned();
    proof {
        let t = s@.skip(a as int);
        assert(forall|j: int| b - a <= j < t.len() ==> t[j] == s@[j + a] && is_space(t[j]));
        if b > a {
            assert(!is_space(t[b - a - 1]));
        }
        lemma_trim_end_take(t, b - a);
        assert(t.take(b - a) =~= s@.subrange(a as int, b as int));
    }
    r
}

/// Character-for-character equality of two strings.
pub fn str_eq(a: &str, b: &str) -> (r: bool)
    ensures
        r == (a@ == b@),
{
    let n = a.unicode_len();
    let m = b.unicode_len();
    if n != m {
        return false;
    }
    let mut i: usize = 0;
    while i < n
        invariant
            i <= n,
            n == a@.len() == b@.len(),
            forall|j: int| 0 <= j < i ==> a@[j] == b@[j],
        decreases n - i,
    {
        if a.get_char(i) != b.get_char(i) {
            return false;
        }
        i += 1;
    }
    proof {
        assert(a@ =~= b@);
    }
    true
}

/// A line split off by `lines` with its trailing carriage return removed:
/// this is how a `\r\n` ending is treated.
pub open spec fn strip_cr(l: Seq<char>) -> Seq<char> {
    if l.len() > 0 && l.last() == '\r' {
        l.drop_last()
    } else {
        l
    }
}

/// The lines of a text, as `str::lines` yields them: pieces between `\n`
/// characters, a final empty piece dropped, and a `\r` before each `\n`
/// stripped.
pub open spec fn spec_lines(s: Seq<char>) -> Seq<Seq<char>> {
    let parts = split_on(s, '\n');
    let kept = if parts.last().len() == 0 {
        parts.drop_last()
    } else {
        parts
    };
    Seq::new(
        kept.len(),
        |i: int|
            if i < parts.len() - 1 {
                strip_cr(parts[i])
            } else {
                parts[i]
            },
    )
}

/// Splits a text into its lines.
pub fn split_lines(s: &str) -> (lines: Vec<String>)
    ensures
        lines@.map_values(|l: String| l@) == spec_lines(s@),
{
    let mut parts = split_str(s, '\n');
    proof {
        lemma_split_on_nonempty(s@, '\n');
    }
    let ghost all = split_on(s@, '\n');
    proof {
        assert(parts@.map_values(|l: String| l@)[parts@.len() - 1] == parts@[parts@.len() - 1]@);
    }
    let last_len = parts[parts.len() - 1].as_str().unicode_len();
    proof {
        assert(last_len as int == all.last().len());
    }
    if last_len == 0 {
        let _last = parts.pop();
    }
    let ghost kept = if all.last().len() == 0 {
        all.drop_last()
    } else {
        all
    };
    proof {
        assert(parts@.map_values(|l: String| l@) =~~= kept);
    }
    let mut lines: Vec<String> = Vec::new();
    let end = parts.len();
    let mut i: usize = 0;
    while i < end
        invariant
            i <= end,
            end == parts@.len(),
            parts@.map_values(|l: String| l@) == kept,
            kept.len() <= all.len(),
            last_len as int == all.last().len(),
            kept == (if all.last().len() == 0 { all.drop_last() } else { all }),
            all.len() >= 1,
            spec_lines(s@) == Seq::new(
                kept.len(),
                |j: int|
                    if j < all.len() - 1 {
                        strip_cr(kept[j])
                    } else {
                        kept[j]
                    },
            ),
            lines@.map_values(|l: String| l@) =~= Seq::new(
                i as nat,
                |j: int|
                    if j < all.len() - 1 {
                        strip_cr(kept[j])
                    } else {
                        kept[j]
                    },
            ),
        decreases end - i,
    {
        let p = &parts[i];
        let pn = p.as_str().unicode_len();
        let stripped: String = if i + 1 < end || last_len == 0 {
            if pn > 0 && p.as_str().get_char(pn - 1) == '\r' {
                p.as_str().substring_char(0, pn - 1).to_owned()
            } else {
                p.clone()
            }
        } else {
            p.clone()
        };
        proof {
            assert(kept[i as int] == p@);
            if (i as int) < end as int - 1 || all.last().len() == 0 {
                assert(i < all.len() - 1);
                if p@.len() > 0 && p@.last() == '\r' {
                    assert(p@.subrange(0, p@.len() - 1) =~= p@.drop_last());
                } else {
                }
                assert(stripped@ == strip_cr(kept[i as int]));
            } else {
                assert(i == all.len() - 1);
                assert(stripped@ == kept[i as int]);
            }
        }
        let ghost old_lines = lines@;
        lines.push(stripped);
        proof {
            assert(lines@.map_values(|l: String| l@) =~~= old_lines.map_values(
                |l: String| l@,
            ).push(stripped@));
        }
        i += 1;
    }
    proof {
        assert(lines@.map_values(|l: String| l@) =~= spec_lines(s@));
    }
    lines
}

} // verus!
