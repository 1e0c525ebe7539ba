//! Character-level text utilities: whitespace, string equality,
//! substring containment, trimming and line splitting.

use vstd::prelude::*;

verus! {

/// The Unicode `White_Space` code points, the set that `str::trim` removes
/// at either end of a string.
pub open spec fn is_ws_char(c: char) -> bool {
    ||| c == '\t'
    ||| c == '\n'
    ||| c == '\u{000B}'
    ||| c == '\u{000C}'
    ||| c == '\r'
    ||| c == ' '
    ||| c == '\u{0085}'
    ||| c == '\u{00A0}'
    ||| c == '\u{1680}'
    ||| (0x2000 <= c as int && c as int <= 0x200A)
    ||| c == '\u{2028}'
    ||| c == '\u{2029}'
    ||| c == '\u{202F}'
    ||| c == '\u{205F}'
    ||| c == '\u{3000}'
}

/// Decides `is_ws_char` on a concrete character.
pub fn is_whitespace_char(c: char) -> (r: bool)
    ensures
        r == is_ws_char(c),
{
    let u = c as u32;
    u == 0x09 || u == 0x0A || u == 0x0B || u == 0x0C || u == 0x0D || u == 0x20 || u == 0x85
        || u == 0xA0 || u == 0x1680 || (0x2000 <= u && u <= 0x200A) || u == 0x2028 || u == 0x2029
        || u == 0x202F || u == 0x205F || u == 0x3000
}

/// Character-for-character string equality.
pub fn str_eq(a: &str, b: &str) -> (r: bool)
    ensures
        r == (a@ == b@),
{
    let alen = a.unicode_len();
    let blen = b.unicode_len();
    if alen != blen {
        return false;
    }
    let mut i: usize = 0;
    while i < alen
        invariant
            i <= alen,
            alen == a@.len(),
            alen == b@.len(),
            forall|j: int| 0 <= j < i ==> a@[j] == b@[j],
        decreases alen - i,
    {
        if a.get_char(i) != b.get_char(i) {
            return false;
        }
        i = i + 1;
    }
    proof {
        assert(a@ =~= b@);
    }
    true
}

/// `needle` occurs in `hay` starting at position `i`.
pub open spec fn matches_at(hay: Seq<char>, needle: Seq<char>, i: int) -> bool {
    needle == hay.subrange(i, i + needle.len())
}

/// `needle` occurs somewhere in `hay` (anywhere, including the empty
/// occurrence of an empty needle).
pub open spec fn contains_substr(hay: Seq<char>, needle: Seq<char>) -> bool {
    exists|i: int| 0 <= i && i + needle.len() <= hay.len() && matches_at(hay, needle, i)
}

/// Compares `needle` against `hay` at position `i`, character by character.
fn match_at_exec(hay: &str, needle: &str, i: usize) -> (r: bool)
    requires
        i + needle@.len() <= hay@.len(),
    ensures
        r == matches_at(hay@, needle@, i as int),
{
    let hlen = hay.unicode_len();
    let nlen = needle.unicode_len();
    let mut k: usize = 0;
    while k < nlen
        invariant
            k <= nlen,
            nlen == needle@.len(),
            hlen == hay@.len(),
            i + nlen <= hlen,
            forall|j: int| 0 <= j < k ==> needle@[j] == hay@[i + j],
        decreases nlen - k,
    {
        if needle.get_char(k) != hay.get_char(i + k) {
            proof {
                assert(hay@.subrange(i as int, i + needle@.len())[k as int] == hay@[i + k]);
            }
            return false;
        }
        k = k + 1;
    }
    proof {
        assert(needle@ =~= hay@.subrange(i as int, i + needle@.len()));
    }
    true
}

/// Decides `contains_substr` on concrete strings by scanning every
/// candidate position.
pub fn contains_str(hay: &str, needle: &str) -> (r: bool)
    ensures
        r == contains_substr(hay@, needle@),
{
    let hlen = hay.unicode_len();
    let nlen = needle.unicode_len();
    if nlen > hlen {
        return false;
    }
    let mut i: usize = 0;
    while i <= hlen - nlen
        invariant
            hlen == hay@.len(),
            nlen == needle@.len(),
            nlen <= hlen,
            i <= hlen - nlen + 1,
            forall|j: int| 0 <= j < i ==> !matches_at(hay@, needle@, j),
        decreases hlen - nlen - i + 1,
    {
        if match_at_exec(hay, needle, i) {
            proof {
                assert(0 <= i as int && i as int + needle@.len() <= hay@.len() && matches_at(
                    hay@,
                    needle@,
                    i as int,
                ));
            }
            return true;
        }
        if i == hlen - nlen {
            return false;
        }
        i = i + 1;
    }
    false
}

/// `s` without its leading whitespace.
pub open spec fn trim_start_spec(s: Seq<char>) -> Seq<char>
    decreases s.len(),
{
    if s.len() > 0 && is_ws_char(s[0]) {
        trim_start_spec(s.drop_first())
    } else {
        s
    }
}

/// `s` without its trailing whitespace.
pub open spec fn trim_end_spec(s: Seq<char>) -> Seq<char>
    decreases s.len(),
{
    if s.len() > 0 && is_ws_char(s[s.len() - 1]) {
        trim_end_spec(s.drop_last())
    } else {
        s
    }
}

/// `s` without leading and trailing whitespace, as `str::trim` leaves it.
pub open spec fn trim_spec(s: Seq<char>) -> Seq<char> {
    trim_end_spec(trim_start_spec(s))
}

/// When the first `k` characters are whitespace and the one at `k` (if any)
/// is not, trimming the start keeps exactly the suffix from `k`.
proof fn lemma_trim_start_at(s: Seq<char>, k: int)
    requires
        0 <= k <= s.len(),
        forall|j: int| 0 <= j < k ==> is_ws_char(s[j]),
        k == s.len() || !is_ws_char(s[k]),
    ensures
        trim_start_spec(s) == s.subrange(k, s.len() as int),
    decreases k,
{
    if k == 0 {
        assert(s.subrange(0, s.len() as int) =~= s);
    } else {
        let t = s.drop_first();
        assert(is_ws_char(s[0]));
        lemma_trim_start_at(t, k - 1);
        assert(t.subrange(k - 1, t.len() as int) =~= s.subrange(k, s.len() as int));
    }
}

/// When every character from `e` on is whitespace and the one before `e`
/// (if any) is not, trimming the end keeps exactly the prefix up to `e`.
proof fn lemma_trim_end_at(s: Seq<char>, e: int)
    requires
        0 <= e <= s.len(),
        forall|j: int| e <= j < s.len() ==> is_ws_char(s[j]),
        e == 0 || !is_ws_char(s[e - 1]),
    ensures
        trim_end_spec(s) == s.subrange(0, e),
    decreases s.len() - e,
{
    if e == s.len() {
        assert(s.subrange(0, s.len() as int) =~= s);
    } else {
        let t = s.drop_last();
        assert(is_ws_char(s[s.len() - 1]));
        lemma_trim_end_at(t, e);
        assert(t.subrange(0, e) =~= s.subrange(0, e));
    }
}

/// Removes leading and trailing whitespace, returning the borrowed middle.
pub fn trim_str<'a>(s: &'a str) -> (r: &'a str)
    ensures
        r@ == trim_spec(s@),
{
    let len = s.unicode_len();
    let mut start: usize = 0;
    while start < len
        invariant
            start <= len,
            len == s@.len(),
            forall|j: int| 0 <= j < start ==> is_ws_char(s@[j]),
        ensures
            start <= len,
            len == s@.len(),
            forall|j: int| 0 <= j < start ==> is_ws_char(s@[j]),
            start == len || !is_ws_char(s@[start as int]),
        decreases len - start,
    {
        if !is_whitespace_char(s.get_char(start)) {
            break;
        }
        start = start + 1;
    }
    if start == len {
        proof {
            lemma_trim_start_at(s@, len as int);
            assert(trim_start_spec(s@) =~= Seq::<char>::empty());
        }
        return s.substring_char(len, len);
    }
    let mut end: usize = len;
    while end > start
        invariant
            start <= end <= len,
            len == s@.len(),
            forall|j: int| end <= j < len ==> is_ws_char(s@[j]),
        ensures
            start <= end <= len,
            forall|j: int| end <= j < len ==> is_ws_char(s@[j]),
            end == start || !is_ws_char(s@[end - 1]),
        decreases end,
    {
        if !is_whitespace_char(s.get_char(end - 1)) {
            break;
        }
        end = end - 1;
    }
    proof {
        assert(end > start) by {
            if end == start {
                assert(is_ws_char(s@[start as int]));
            }
        }
        lemma_trim_start_at(s@, start as int);
        let t = s@.subrange(start as int, len as int);
        assert(forall|j: int|
            end - start <= j < t.len() ==> t[j] == s@[start + j] && is_ws_char(#[trigger] t[j]));
        assert(t[end - start - 1] == s@[end - 1]);
        lemma_trim_end_at(t, end - start);
        assert(t.subrange(0, end - start) =~= s@.subrange(start as int, end as int));
    }
    s.substring_char(start, end)
}

/// The position of the first line feed in `s`, or `s.len()` if there is none.
pub open spec fn first_nl(s: Seq<char>) -> int
    decreases s.len(),
{
    if s.len() == 0 {
        0
    } else if s[0] == '\n' {
        0
    } else {
        1 + first_nl(s.drop_first())
    }
}

/// `first_nl` stays within the bounds of `s`.
proof fn lemma_first_nl_bounds(s: Seq<char>)
    ensures
        0 <= first_nl(s) <= s.len(),
    decreases s.len(),
{
    if s.len() > 0 && s[0] != '\n' {
        lemma_first_nl_bounds(s.drop_first());
    }
}

/// `first_nl` returns exactly the position of the first line feed.
proof fn lemma_first_nl_at(s: Seq<char>, k: int)
    requires
        0 <= k <= s.len(),
        forall|j: int| 0 <= j < k ==> s[j] != '\n',
        k == s.len() || s[k] == '\n',
    ensures
        first_nl(s) == k,
    decreases k,
{
    if k > 0 {
        lemma_first_nl_at(s.drop_first(), k - 1);
    }
}

/// Drops one carriage return at the end, if present: the remains of a line
/// once its `\r\n` terminator's line feed is gone.
pub open spec fn strip_cr(s: Seq<char>) -> Seq<char> {
    if s.len() > 0 && s[s.len() - 1] == '\r' {
        s.drop_last()
    } else {
        s
    }
}

/// The lines of `s`, as `str::lines` yields them: split at each line feed,
/// a carriage return directly before a line feed removed with it, and no
/// empty line after a trailing line feed.
pub open spec fn split_lines(s: Seq<char>) -> Seq<Seq<char>>
    decreases s.len(),
    via split_lines_decreases
{
    if s.len() == 0 {
        Seq::empty()
    } else {
        let i = first_nl(s);
        if i == s.len() {
            seq![s]
        } else {
            seq![strip_cr(s.subrange(0, i))] + split_lines(s.subrange(i + 1, s.len() as int))
        }
    }
}

#[via_fn]
proof fn split_lines_decreases(s: Seq<char>) {
    lemma_first_nl_bounds(s);
}

/// Splits `contents` into its lines, each borrowed from `contents`.
pub fn split_lines_str<'a>(contents: &'a str) -> (r: Vec<&'a str>)
    ensures
        r.deep_view() == split_lines(contents@),
{
    let len = contents.unicode_len();
    let mut r: Vec<&'a str> = Vec::new();
    let mut pos: usize = 0;
    proof {
        assert(contents@.subrange(0, len as int) =~= contents@);
        assert(r.deep_view() =~= Seq::<Seq<char>>::empty());
        assert(Seq::<Seq<char>>::empty() + split_lines(contents@) =~= split_lines(contents@));
    }
    while pos < len
        invariant
            pos <= len,
            len == contents@.len(),
            r.deep_view() + split_lines(contents@.subrange(pos as int, len as int))
                == split_lines(contents@),
        decreases len - pos,
    {
        let ghost prev = r.deep_view();
        let ghost suf = contents@.subrange(pos as int, len as int);
        let mut j: usize = pos;
        while j < len
            invariant
                pos <= j <= len,
                len == contents@.len(),
                forall|k: int| pos <= k < j ==> contents@[k] != '\n',
            ensures
                pos <= j <= len,
                forall|k: int| pos <= k < j ==> contents@[k] != '\n',
                j == len || contents@[j as int] == '\n',
            decreases len - j,
        {
            if contents.get_char(j) == '\n' {
                break;
            }
            j = j + 1;
        }
        proof {
            assert(forall|k: int| 0 <= k < j - pos ==> #[trigger] suf[k] != '\n');
            if j < len {
                assert(suf[j - pos] == '\n');
            }
            lemma_first_nl_at(suf, j - pos);
        }
        if j == len {
            let line = contents.substring_char(pos, len);
            proof {
                assert(suf =~= line@);
                assert(split_lines(suf) == seq![suf]);
            }
            r.push(line);
            proof {
                assert(r.deep_view() =~= prev.push(suf));
                assert(prev.push(suf) =~= prev + seq![suf]);
                assert(contents@.subrange(len as int, len as int) =~= Seq::<char>::empty());
                assert(split_lines(Seq::<char>::empty()) == Seq::<Seq<char>>::empty());
                assert(r.deep_view() + Seq::<Seq<char>>::empty() =~= r.deep_view());
            }
            pos = len;
        } else {
            let line = if j > pos && contents.get_char(j - 1) == '\r' {
                contents.substring_char(pos, j - 1)
            } else {
                contents.substring_char(pos, j)
            };
            proof {
                let seg = suf.subrange(0, j - pos);
                assert(seg =~= contents@.subrange(pos as int, j as int));
                if j > pos && contents@[j - 1] == '\r' {
                    assert(seg.len() > 0 && seg[seg.len() - 1] == '\r');
                    assert(strip_cr(seg) =~= contents@.subrange(pos as int, j - 1));
                    assert(line@ == strip_cr(seg));
                } else {
                    if seg.len() > 0 {
                        assert(seg[seg.len() - 1] == contents@[j - 1]);
                    }
                    assert(strip_cr(seg) == seg);
                    assert(line@ == strip_cr(seg));
                }
                assert(split_lines(suf) == seq![strip_cr(seg)] + split_lines(
                    suf.subrange(j - pos + 1, suf.len() as int),
                ));
                assert(suf.subrange(j - pos + 1, suf.len() as int) =~= contents@.subrange(
                    j + 1,
                    len as int,
                ));
            }
            r.push(line);
            proof {
                assert(r.deep_view() =~= prev.push(line@));
                assert(prev + (seq![line@] + split_lines(contents@.subrange(j + 1, len as int)))
                    =~= prev.push(line@) + split_lines(contents@.subrange(j + 1, len as int)));
                assert(prev + split_lines(suf) == split_lines(contents@));
            }
            pos = j + 1;
        }
    }
    proof {
        assert(contents@.subrange(pos as int, len as int) =~= Seq::<char>::empty());
        assert(r.deep_view() + Seq::<Seq<char>>::empty() =~= r.deep_view());
    }
    r
}

} // verus!
