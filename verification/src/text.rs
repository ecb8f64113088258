//! Text of one line: white space, trimming and splitting into fields.
//!
//! A line is modelled as a sequence of characters. Executable code first
//! spreads a string slice into a vector of characters, works on index ranges
//! of that vector, and cuts the resulting ranges out of the slice.

use vstd::prelude::*;
use vstd::string::*;

verus! {

/// `str`'s `==` from the standard library (`<str as PartialEq>::eq`): two
/// string slices are equal exactly if they hold the same characters.
pub assume_specification[ <str as PartialEq>::eq ](a: &str, b: &str) -> (r: bool)
    ensures
        r == (a@ == b@),
;

/// The separator between the fields of a line.
pub const TAB: char = '\t';

/// Characters with the Unicode property `White_Space`.
pub open spec fn is_space(c: char) -> bool {
    let n = c as u32;
    ||| 0x09 <= n <= 0x0D
    ||| n == 0x20
    ||| n == 0x85
    ||| n == 0xA0
    ||| n == 0x1680
    ||| 0x2000 <= n <= 0x200A
    ||| n == 0x2028
    ||| n == 0x2029
    ||| n == 0x202F
    ||| n == 0x205F
    ||| n == 0x3000
}

/// `s` without its leading white space.
pub open spec fn trim_start(s: Seq<char>) -> Seq<char>
    decreases s.len(),
{
    if s.len() > 0 && is_space(s[0]) {
        trim_start(s.skip(1))
    } else {
        s
    }
}

/// `s` without its trailing white space.
pub open spec fn trim_end(s: Seq<char>) -> Seq<char>
    decreases s.len(),
{
    if s.len() > 0 && is_space(s.last()) {
        trim_end(s.drop_last())
    } else {
        s
    }
}

/// `s` without leading and trailing white space.
pub open spec fn trim(s: Seq<char>) -> Seq<char> {
    trim_end(trim_start(s))
}

/// Index of the first `sep` in `s`, or `s.len()` if there is none.
pub open spec fn first_sep(s: Seq<char>, sep: char) -> int
    decreases s.len(),
{
    if s.len() == 0 || s[0] == sep {
        0
    } else {
        1 + first_sep(s.skip(1), sep)
    }
}

/// The fields of `s` between occurrences of `sep`. There is always at least
/// one field; `n` separators give `n + 1` fields, some of them possibly empty.
pub open spec fn split(s: Seq<char>, sep: char) -> Seq<Seq<char>>
    decreases s.len(),
    via split_decreases
{
    let i = first_sep(s, sep);
    if i >= s.len() {
        seq![s]
    } else {
        seq![s.take(i)] + split(s.skip(i + 1), sep)
    }
}

#[via_fn]
proof fn split_decreases(s: Seq<char>, sep: char) {
    lemma_first_sep(s, sep);
}

/// The fields of a line: the line is trimmed as a whole, then cut at tabs.
pub open spec fn line_fields(line: Seq<char>) -> Seq<Seq<char>> {
    split(trim(line), TAB)
}

/// The character sequences held by a sequence of strings.
pub open spec fn texts(v: Seq<String>) -> Seq<Seq<char>> {
    v.map_values(|s: String| s@)
}

/// `first_sep` is the least index that holds `sep`, or the length.
pub proof fn lemma_first_sep(s: Seq<char>, sep: char)
    ensures
        0 <= first_sep(s, sep) <= s.len(),
        forall|k: int| 0 <= k < first_sep(s, sep) ==> s[k] != sep,
        first_sep(s, sep) < s.len() ==> s[first_sep(s, sep)] == sep,
    decreases s.len(),
{
    if s.len() == 0 || s[0] == sep {
    } else {
        let t = s.skip(1);
        lemma_first_sep(t, sep);
        assert forall|k: int| 0 <= k < first_sep(s, sep) implies s[k] != sep by {
            if k > 0 {
                assert(s[k] == t[k - 1]);
            }
        }
    }
}

/// An index with no `sep` before it, which holds `sep` or is the length, is
/// `first_sep`.
pub proof fn lemma_first_sep_is(s: Seq<char>, sep: char, j: int)
    requires
        0 <= j <= s.len(),
        forall|k: int| 0 <= k < j ==> s[k] != sep,
        j < s.len() ==> s[j] == sep,
    ensures
        first_sep(s, sep) == j,
{
    lemma_first_sep(s, sep);
    let i = first_sep(s, sep);
    if i < j {
        assert(s[i] != sep);
    } else if j < i {
        assert(s[j] != sep);
    }
}

/// The fields written one after the other, with `sep` between them.
pub open spec fn join(fields: Seq<Seq<char>>, sep: char) -> Seq<char>
    decreases fields.len(),
{
    if fields.len() == 0 {
        Seq::empty()
    } else if fields.len() == 1 {
        fields[0]
    } else {
        fields[0] + seq![sep] + join(fields.skip(1), sep)
    }
}

/// Splitting undoes joining: there is at least one field, no field holds the
/// separator, and the fields joined by the separator are the text.
pub proof fn law_split(s: Seq<char>, sep: char)
    ensures
        split(s, sep).len() >= 1,
        forall|i: int, k: int|
            0 <= i < split(s, sep).len() && 0 <= k < split(s, sep)[i].len() ==> split(
                s,
                sep,
            )[i][k] != sep,
        join(split(s, sep), sep) == s,
    decreases s.len(),
{
    lemma_first_sep(s, sep);
    let i = first_sep(s, sep);
    if i < s.len() {
        let rest = split(s.skip(i + 1), sep);
        law_split(s.skip(i + 1), sep);
        assert forall|a: int, k: int|
            0 <= a < split(s, sep).len() && 0 <= k < split(s, sep)[a].len() implies split(
            s,
            sep,
        )[a][k] != sep by {
            if a == 0 {
                assert(split(s, sep)[0] == s.take(i));
            } else {
                assert(split(s, sep)[a] == rest[a - 1]);
            }
        }
        assert(split(s, sep).skip(1) == rest);
        assert(s.take(i) + seq![sep] + s.skip(i + 1) == s);
    }
}

/// Trimming keeps one stretch of the text: what stands before and after it is
/// white space, and it neither begins nor ends with white space.
pub proof fn law_trim(s: Seq<char>)
    ensures
        exists|a: int, b: int|
            {
                &&& 0 <= a <= b <= s.len()
                &&& #[trigger] s.subrange(a, b) == trim(s)
                &&& forall|k: int| 0 <= k < a || b <= k < s.len() ==> is_space(s[k])
            },
        trim(s).len() > 0 ==> !is_space(trim(s)[0]) && !is_space(trim(s).last()),
{
    let a = lemma_trim_start(s);
    let t = trim_start(s);
    let n = lemma_trim_end(t);
    assert(t.take(n) == s.subrange(a, a + n));
    assert forall|k: int| 0 <= k < a || a + n <= k < s.len() implies is_space(s[k]) by {
        if k >= a + n {
            assert(s[k] == t[k - a]);
        }
    }
    if trim(s).len() > 0 {
        assert(trim(s)[0] == t[0]);
    }
}

/// `trim_start` drops the white space before the first character that is
/// none; the number of characters dropped is returned.
proof fn lemma_trim_start(s: Seq<char>) -> (a: int)
    ensures
        0 <= a <= s.len(),
        trim_start(s) == s.skip(a),
        forall|k: int| 0 <= k < a ==> is_space(s[k]),
        a < s.len() ==> !is_space(s[a]),
    decreases s.len(),
{
    if s.len() > 0 && is_space(s[0]) {
        let t = s.skip(1);
        let b = lemma_trim_start(t);
        assert(t.skip(b) == s.skip(b + 1));
        assert forall|k: int| 0 <= k < b + 1 implies is_space(s[k]) by {
            if k > 0 {
                assert(s[k] == t[k - 1]);
            }
        }
        if b + 1 < s.len() {
            assert(s[b + 1] == t[b]);
        }
        b + 1
    } else {
        assert(s.skip(0) == s);
        0
    }
}

/// `trim_end` drops the white space after the last character that is none;
/// the number of characters kept is returned.
proof fn lemma_trim_end(s: Seq<char>) -> (n: int)
    ensures
        0 <= n <= s.len(),
        trim_end(s) == s.take(n),
        forall|k: int| n <= k < s.len() ==> is_space(s[k]),
        n > 0 ==> !is_space(s[n - 1]),
    decreases s.len(),
{
    if s.len() > 0 && is_space(s.last()) {
        let t = s.drop_last();
        let m = lemma_trim_end(t);
        assert(t.take(m) == s.take(m));
        assert forall|k: int| m <= k < s.len() implies is_space(s[k]) by {
            if k < s.len() - 1 {
                assert(s[k] == t[k]);
            }
        }
        if m > 0 {
            assert(s[m - 1] == t[m - 1]);
        }
        m
    } else {
        assert(s.take(s.len() as int) == s);
        s.len() as int
    }
}

/// White space, decided on the character's code point.
pub fn space(c: char) -> (r: bool)
    ensures
        r == is_space(c),
{
    let n: u32 = c as u32;
    (0x09 <= n && n <= 0x0D) || n == 0x20 || n == 0x85 || n == 0xA0 || n == 0x1680 || (0x2000 <= n
        && n <= 0x200A) || n == 0x2028 || n == 0x2029 || n == 0x202F || n == 0x205F || n == 0x3000
}

/// The characters of a string slice, in order.
pub fn chars_of(s: &str) -> (v: Vec<char>)
    ensures
        v@ == s@,
{
    let mut v: Vec<char> = Vec::new();
    for c in it: s.chars()
        invariant
            v@ == it.seq().take(it.index() as int),
    {
        v.push(c);
    }
    v
}

/// The bounds of the trimmed part of `v[lo..hi]`.
pub fn trim_range(v: &Vec<char>, lo: usize, hi: usize) -> (r: (usize, usize))
    requires
        lo <= hi <= v.len(),
    ensures
        lo <= r.0 <= r.1 <= hi,
        v@.subrange(r.0 as int, r.1 as int) == trim(v@.subrange(lo as int, hi as int)),
{
    let mut a: usize = lo;
    while a < hi && space(v[a])
        invariant
            lo <= a <= hi <= v.len(),
            trim_start(v@.subrange(lo as int, hi as int)) == trim_start(
                v@.subrange(a as int, hi as int),
            ),
        decreases hi - a,
    {
        proof {
            let s = v@.subrange(a as int, hi as int);
            assert(s[0] == v@[a as int]);
            assert(s.skip(1) == v@.subrange(a + 1, hi as int));
        }
        a = a + 1;
    }
    proof {
        let s = v@.subrange(a as int, hi as int);
        if a < hi {
            assert(s[0] == v@[a as int]);
        }
        assert(trim_start(s) == s);
    }
    let mut b: usize = hi;
    while b > a && space(v[b - 1])
        invariant
            a <= b <= hi <= v.len(),
            trim_end(v@.subrange(a as int, hi as int)) == trim_end(
                v@.subrange(a as int, b as int),
            ),
        decreases b - a,
    {
        proof {
            let s = v@.subrange(a as int, b as int);
            assert(s.last() == v@[b - 1]);
            assert(s.drop_last() == v@.subrange(a as int, b - 1));
        }
        b = b - 1;
    }
    proof {
        let s = v@.subrange(a as int, b as int);
        if b > a {
            assert(s.last() == v@[b - 1]);
        }
        assert(trim_end(s) == s);
    }
    (a, b)
}

/// `text` without leading and trailing white space.
pub fn trimmed(text: &str) -> (r: String)
    ensures
        r@ == trim(text@),
{
    let v = chars_of(text);
    let (a, b) = trim_range(&v, 0, v.len());
    proof {
        assert(v@.subrange(0, v.len() as int) == v@);
    }
    text.substring_char(a, b).to_owned()
}

/// The fields of a line: the line is trimmed as a whole, then cut at tabs.
pub fn split_line(line: &str) -> (fields: Vec<String>)
    ensures
        texts(fields@) == line_fields(line@),
        fields.len() >= 1,
{
    let v = chars_of(line);
    let (lo, hi) = trim_range(&v, 0, v.len());
    let ghost whole = v@.subrange(lo as int, hi as int);
    proof {
        assert(v@.subrange(0, v.len() as int) == v@);
        assert(whole == trim(line@));
    }
    let mut fields: Vec<String> = Vec::new();
    let mut start: usize = lo;
    let mut i: usize = lo;
    while i < hi
        invariant
            lo <= start <= i <= hi <= v.len(),
            v@ == line@,
            whole == v@.subrange(lo as int, hi as int),
            forall|k: int| start <= k < i ==> v@[k] != TAB,
            split(whole, TAB) == texts(fields@) + split(
                v@.subrange(start as int, hi as int),
                TAB,
            ),
        decreases hi - i,
    {
        if v[i] == TAB {
            let field = line.substring_char(start, i).to_owned();
            proof {
                let s = v@.subrange(start as int, hi as int);
                assert forall|k: int| 0 <= k < i - start implies s[k] != TAB by {
                    assert(s[k] == v@[start + k]);
                }
                assert(s[i - start] == TAB);
                lemma_first_sep_is(s, TAB, i - start);
                assert(s.take(i - start) == v@.subrange(start as int, i as int));
                assert(s.skip(i - start + 1) == v@.subrange(i + 1, hi as int));
                assert(texts(fields@.push(field)) == texts(fields@).push(field@));
                assert(texts(fields@).push(field@) + split(v@.subrange(i + 1, hi as int), TAB)
                    == texts(fields@) + (seq![field@] + split(
                    v@.subrange(i + 1, hi as int),
                    TAB,
                )));
            }
            fields.push(field);
            start = i + 1;
        }
        i = i + 1;
    }
    let last = line.substring_char(start, hi).to_owned();
    proof {
        let s = v@.subrange(start as int, hi as int);
        assert forall|k: int| 0 <= k < s.len() implies s[k] != TAB by {
            assert(s[k] == v@[start + k]);
        }
        lemma_first_sep_is(s, TAB, s.len() as int);
        assert(texts(fields@.push(last)) == texts(fields@).push(last@));
        assert(texts(fields@).push(last@) == texts(fields@) + seq![last@]);
    }
    fields.push(last);
    fields
}

} // verus!
