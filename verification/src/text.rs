use vstd::prelude::*;

verus! {

/// Simple ASCII lowercase mapping: an uppercase letter shifts to its
/// lowercase counterpart, every other character is left alone.
pub open spec fn lower_char(c: char) -> char {
    if 'A' <= c && c <= 'Z' {
        (((c as u32) + 32) as char)
    } else {
        c
    }
}

/// The lowercase form of a whole sequence of characters.
pub open spec fn lower(s: Seq<char>) -> Seq<char> {
    s.map_values(|c: char| lower_char(c))
}

/// `pat` occurs in `text` as a contiguous subsequence.
/// The empty pattern occurs in every text.
pub open spec fn contains_seq(text: Seq<char>, pat: Seq<char>) -> bool {
    exists|i: int|
        0 <= i && i + pat.len() <= text.len() && #[trigger] text.subrange(i, i + pat.len() as int)
            == pat
}

/// `s` folded for the requested comparison: lowercased when `fold` is set,
/// untouched otherwise.
pub open spec fn fold_seq(s: Seq<char>, fold: bool) -> Seq<char> {
    if fold {
        lower(s)
    } else {
        s
    }
}

/// The lines of `s` that remain to be produced, given that the characters
/// of an unfinished current line `cur` have already been passed.
/// A line break ends the current line; at the end of the text an unfinished
/// line is kept, but a text that ends right after a line break (or an empty
/// text) yields no further line.
pub open spec fn lines_from(s: Seq<char>, cur: Seq<char>) -> Seq<Seq<char>>
    decreases s.len(),
{
    if s.len() == 0 {
        if cur.len() == 0 {
            Seq::empty()
        } else {
            seq![cur]
        }
    } else if s[0] == '\n' {
        seq![cur] + lines_from(s.drop_first(), Seq::empty())
    } else {
        lines_from(s.drop_first(), cur.push(s[0]))
    }
}

/// `s` split at line breaks, without a spurious empty final line when the
/// text ends in a line break.
pub open spec fn spec_lines(s: Seq<char>) -> Seq<Seq<char>> {
    lines_from(s, Seq::empty())
}

/// Executable counterpart of `lower_char`.
fn to_lower(c: char) -> (r: char)
    ensures
        r == lower_char(c),
{
    if 'A' <= c && c <= 'Z' {
        let u: u32 = c as u32;
        let b: u8 = (u + 32) as u8;
        let r: char = b as char;
        proof {
            vstd::utf8::char_u32_cast(r, r as u32);
        }
        r
    } else {
        c
    }
}

/// Compares the characters of `pat` against `text` starting at `at`,
/// folding both sides when `fold` is set.
fn matches_at(text: &str, pat: &str, at: usize, m: usize, fold: bool) -> (r: bool)
    requires
        m == pat@.len(),
        at + m <= text@.len(),
        at + m <= usize::MAX,
    ensures
        r == (fold_seq(text@, fold).subrange(at as int, at + m) == fold_seq(pat@, fold)),
{
    let ghost ft = fold_seq(text@, fold);
    let ghost fp = fold_seq(pat@, fold);
    let mut j: usize = 0;
    while j < m
        invariant
            j <= m,
            m == pat@.len(),
            at + m <= text@.len(),
            at + m <= usize::MAX,
            ft == fold_seq(text@, fold),
            fp == fold_seq(pat@, fold),
            forall|k: int| 0 <= k < j ==> ft[at + k] == fp[k],
        decreases m - j,
    {
        let tc = text.get_char(at + j);
        let pc = pat.get_char(j);
        let same = if fold {
            to_lower(tc) == to_lower(pc)
        } else {
            tc == pc
        };
        if !same {
            proof {
                assert(ft[at + j] != fp[j as int]);
                assert(ft.subrange(at as int, at + m)[j as int] == ft[at + j]);
            }
            return false;
        }
        j += 1;
    }
    proof {
        assert(ft.subrange(at as int, at + m) =~= fp);
    }
    true
}

/// Splits `contents` at line breaks, as `spec_lines` describes.
pub fn split_lines(contents: &str) -> (r: Vec<String>)
    ensures
        r.deep_view() == spec_lines(contents@),
{
    let ghost s = contents@;
    let n = contents.unicode_len();
    let mut out: Vec<String> = Vec::new();
    let mut start: usize = 0;
    let mut i: usize = 0;
    proof {
        assert(s.subrange(0, n as int) =~= s);
        assert(s.subrange(0, 0) =~= Seq::<char>::empty());
        assert(out.deep_view() =~= Seq::<Seq<char>>::empty());
        assert(Seq::<Seq<char>>::empty() + lines_from(s, Seq::<char>::empty()) =~= lines_from(
            s,
            Seq::<char>::empty(),
        ));
    }
    while i < n
        invariant
            start <= i <= n,
            n == s.len(),
            s == contents@,
            out.deep_view() + lines_from(
                s.subrange(i as int, n as int),
                s.subrange(start as int, i as int),
            ) == spec_lines(s),
        decreases n - i,
    {
        let c = contents.get_char(i);
        proof {
            let rest = s.subrange(i as int, n as int);
            assert(rest[0] == s[i as int]);
            assert(rest.drop_first() =~= s.subrange(i + 1, n as int));
        }
        if c == '\n' {
            let line = contents.substring_char(start, i);
            let owned: String = line.to_owned();
            let ghost old_dv = out.deep_view();
            let ghost cur = s.subrange(start as int, i as int);
            let ghost rest2 = lines_from(s.subrange(i + 1, n as int), Seq::<char>::empty());
            out.push(owned);
            proof {
                assert(s.subrange(i + 1, i + 1) =~= Seq::<char>::empty());
                assert(out.deep_view() =~= old_dv.push(cur));
                assert(old_dv.push(cur) =~= old_dv + seq![cur]);
                assert(old_dv + (seq![cur] + rest2) =~= (old_dv + seq![cur]) + rest2);
            }
            start = i + 1;
        } else {
            proof {
                let cur = s.subrange(start as int, i as int);
                assert(cur.push(s[i as int]) =~= s.subrange(start as int, i + 1));
            }
        }
        i += 1;
    }
    if start < n {
        let line = contents.substring_char(start, n);
        let ghost old_dv = out.deep_view();
        let ghost cur = s.subrange(start as int, n as int);
        out.push(line.to_owned());
        proof {
            assert(s.subrange(n as int, n as int) =~= Seq::<char>::empty());
            assert(out.deep_view() =~= old_dv.push(cur));
            assert(old_dv.push(cur) =~= old_dv + seq![cur]);
        }
    } else {
        proof {
            assert(s.subrange(n as int, n as int) =~= Seq::<char>::empty());
            assert(s.subrange(start as int, n as int) =~= Seq::<char>::empty());
            assert(out.deep_view() + Seq::<Seq<char>>::empty() =~= out.deep_view());
        }
    }
    out
}

/// Substring containment test, with optional lowercase folding of both sides.
pub fn contains_folded(text: &str, pat: &str, fold: bool) -> (r: bool)
    ensures
        r == contains_seq(fold_seq(text@, fold), fold_seq(pat@, fold)),
{
    let ghost ft = fold_seq(text@, fold);
    let ghost fp = fold_seq(pat@, fold);
    let n = text.unicode_len();
    let m = pat.unicode_len();
    if m > n {
        proof {
            assert(ft.len() == text@.len() && fp.len() == pat@.len());
        }
        return false;
    }
    if m == 0 {
        proof {
            assert(ft.subrange(0, 0 + fp.len() as int) =~= fp);
        }
        return true;
    }
    let mut i: usize = 0;
    while i <= n - m
        invariant
            0 < m <= n,
            n == text@.len(),
            m == pat@.len(),
            ft == fold_seq(text@, fold),
            fp == fold_seq(pat@, fold),
            i <= n - m + 1,
            forall|k: int| 0 <= k < i ==> #[trigger] ft.subrange(k, k + m) != fp,
        decreases n - i,
    {
        if matches_at(text, pat, i, m, fold) {
            proof {
                assert(0 <= i && i + fp.len() <= ft.len() && ft.subrange(i as int, i + fp.len() as int) == fp);
            }
            return true;
        }
        i += 1;
    }
    proof {
        assert(forall|k: int|
            0 <= k && k + fp.len() <= ft.len() ==> #[trigger] ft.subrange(k, k + m) != fp);
    }
    false
}

} // verus!
