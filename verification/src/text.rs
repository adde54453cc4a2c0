//! Character-level helpers shared by the label, script and menu code.
//!
//! Strings are handled as sequences of `char`s: `s@` is the sequence of
//! characters of `s`, and everything the library builds is stated over it.
use vstd::prelude::*;
use vstd::string::StringExecFns;
use vstd::string::StrSliceExecFns;

verus! {

/// The Unicode `White_Space` property, the set that `char::is_whitespace`
/// and `str::trim` use.
pub open spec fn is_white_space(c: char) -> bool {
    let u = c as u32;
    ||| 0x09 <= u <= 0x0d
    ||| u == 0x20
    ||| u == 0x85
    ||| u == 0xa0
    ||| u == 0x1680
    ||| 0x2000 <= u <= 0x200a
    ||| u == 0x2028
    ||| u == 0x2029
    ||| u == 0x202f
    ||| u == 0x205f
    ||| u == 0x3000
}

/// `s` without its leading white space.
pub open spec fn trim_start(s: Seq<char>) -> Seq<char>
    decreases s.len(),
{
    if s.len() > 0 && is_white_space(s[0]) {
        trim_start(s.drop_first())
    } else {
        s
    }
}

/// `s` without its trailing white space.
pub open spec fn trim_end(s: Seq<char>) -> Seq<char>
    decreases s.len(),
{
    if s.len() > 0 && is_white_space(s.last()) {
        trim_end(s.drop_last())
    } else {
        s
    }
}

/// `s` without leading and trailing white space, as `str::trim` gives it.
pub open spec fn trim(s: Seq<char>) -> Seq<char> {
    trim_end(trim_start(s))
}

/// Every character of `s` is white space.
pub open spec fn all_white(s: Seq<char>) -> bool {
    forall|i: int| 0 <= i < s.len() ==> is_white_space(#[trigger] s[i])
}

/// `s` ends with `suffix`.
pub open spec fn ends_with(s: Seq<char>, suffix: Seq<char>) -> bool {
    suffix.len() <= s.len() && s.subrange(s.len() - suffix.len(), s.len() as int) =~= suffix
}

/// `s` starts with `prefix`.
pub open spec fn starts_with(s: Seq<char>, prefix: Seq<char>) -> bool {
    prefix.len() <= s.len() && s.subrange(0, prefix.len() as int) =~= prefix
}

/// `s` holds the character `c`.
pub open spec fn has_char(s: Seq<char>, c: char) -> bool {
    exists|i: int| 0 <= i < s.len() && s[i] == c
}

pub proof fn lemma_trim_start_suffix(s: Seq<char>)
    ensures
        trim_start(s).len() <= s.len(),
        trim_start(s) =~= s.subrange(s.len() - trim_start(s).len(), s.len() as int),
        all_white(s.subrange(0, s.len() - trim_start(s).len())),
        trim_start(s).len() > 0 ==> !is_white_space(trim_start(s)[0]),
    decreases s.len(),
{
    if s.len() > 0 && is_white_space(s[0]) {
        lemma_trim_start_suffix(s.drop_first());
        let t = trim_start(s.drop_first());
        assert(s.drop_first().subrange(0, s.drop_first().len() - t.len())
            =~= s.subrange(1, s.len() - t.len()));
        assert(s.drop_first().subrange(s.drop_first().len() - t.len(), s.drop_first().len() as int)
            =~= s.subrange(s.len() - t.len(), s.len() as int));
        assert forall|i: int| 0 <= i < s.len() - t.len() implies is_white_space(
            #[trigger] s.subrange(0, s.len() - t.len())[i],
        ) by {
            if i > 0 {
                assert(s.subrange(0, s.len() - t.len())[i] == s.subrange(1, s.len() - t.len())[i
                    - 1]);
            }
        }
    } else {
        assert(s.subrange(0, 0) =~= Seq::<char>::empty());
        assert(s.subrange(0, s.len() as int) =~= s);
    }
}

pub proof fn lemma_trim_end_prefix(s: Seq<char>)
    ensures
        trim_end(s).len() <= s.len(),
        trim_end(s) =~= s.subrange(0, trim_end(s).len() as int),
        all_white(s.subrange(trim_end(s).len() as int, s.len() as int)),
        trim_end(s).len() > 0 ==> !is_white_space(trim_end(s).last()),
    decreases s.len(),
{
    if s.len() > 0 && is_white_space(s.last()) {
        lemma_trim_end_prefix(s.drop_last());
        let t = trim_end(s.drop_last());
        assert(s.drop_last().subrange(0, t.len() as int) =~= s.subrange(0, t.len() as int));
        assert forall|i: int| 0 <= i < s.len() - t.len() implies is_white_space(
            #[trigger] s.subrange(t.len() as int, s.len() as int)[i],
        ) by {
            if i < s.len() - t.len() - 1 {
                assert(s.subrange(t.len() as int, s.len() as int)[i] == s.drop_last().subrange(
                    t.len() as int,
                    s.drop_last().len() as int,
                )[i]);
            }
        }
    } else {
        assert(s.subrange(0, s.len() as int) =~= s);
    }
}

/// The trimmed text is empty exactly when every character is white space.
pub proof fn lemma_trim_empty(s: Seq<char>)
    ensures
        trim(s).len() == 0 <==> all_white(s),
{
    lemma_trim_start_suffix(s);
    lemma_trim_end_prefix(trim_start(s));
    let a = trim_start(s);
    if trim(s).len() == 0 {
        assert(a.subrange(0, a.len() as int) =~= a);
        assert forall|i: int| 0 <= i < s.len() implies is_white_space(#[trigger] s[i]) by {
            if i < s.len() - a.len() {
                assert(s.subrange(0, s.len() - a.len())[i] == s[i]);
            } else {
                assert(a[i - (s.len() - a.len())] == s[i]);
                assert(a.subrange(0, a.len() as int)[i - (s.len() - a.len())] == a[i - (s.len()
                    - a.len())]);
            }
        }
    }
    if all_white(s) && trim(s).len() > 0 {
        assert(a[0] == s[s.len() - a.len()]);
        assert(trim(s)[0] == a[0]);
    }
}

/// White space put in front does not survive `trim_start`.
pub proof fn lemma_trim_start_skips(c: char, x: Seq<char>)
    requires
        is_white_space(c),
    ensures
        trim_start(seq![c] + x) == trim_start(x),
{
    assert((seq![c] + x)[0] == c);
    assert((seq![c] + x).drop_first() =~= x);
}

/// White space put at the end does not survive `trim_end`.
pub proof fn lemma_trim_end_skips(x: Seq<char>, c: char)
    requires
        is_white_space(c),
    ensures
        trim_end(x + seq![c]) == trim_end(x),
{
    assert((x + seq![c]).last() == c);
    assert((x + seq![c]).drop_last() =~= x);
}

/// `trim_start` of a concatenation: the tail is kept whole unless the head
/// is all white space.
pub proof fn lemma_trim_start_concat(x: Seq<char>, t: Seq<char>)
    ensures
        trim_start(x + t) == if trim_start(x).len() > 0 {
            trim_start(x) + t
        } else {
            trim_start(t)
        },
    decreases x.len(),
{
    if x.len() == 0 {
        assert(x + t =~= t);
    } else if is_white_space(x[0]) {
        assert((x + t)[0] == x[0]);
        assert((x + t).drop_first() =~= x.drop_first() + t);
        lemma_trim_start_concat(x.drop_first(), t);
    } else {
        assert((x + t)[0] == x[0]);
    }
}

/// Padding a text with white space on either side does not change what it
/// trims to.
pub proof fn lemma_trim_ignores_padding(h: Seq<char>)
    ensures
        trim(seq![' '] + h + seq!['\t']) == trim(h),
{
    let tab = seq!['\t'];
    assert(seq![' '] + h + tab =~= seq![' '] + (h + tab));
    lemma_trim_start_skips(' ', h + tab);
    lemma_trim_start_concat(h, tab);
    if trim_start(h).len() > 0 {
        lemma_trim_end_skips(trim_start(h), '\t');
    } else {
        assert(tab[0] == '\t');
        assert(tab.drop_first().len() == 0);
        assert(trim_start(tab.drop_first()) == tab.drop_first());
        assert(trim_start(h).len() == 0);
        assert(trim_end(trim_start(h)) == trim_start(h));
        assert(trim_start(h) =~= tab.drop_first());
    }
}

/// `str::trim`: leading and trailing white space removed.
#[verifier::external_body]
pub(crate) fn trim_text(s: &str) -> (r: &str)
    ensures
        r@ == trim(s@),
{
    s.trim()
}

/// `String::push`: appends one character.
#[verifier::external_body]
pub(crate) fn push_char(s: &mut String, c: char)
    ensures
        final(s)@ == old(s)@.push(c),
{
    s.push(c)
}

/// Whether two texts hold the same characters.
pub fn str_eq(a: &str, b: &str) -> (r: bool)
    ensures
        r == (a@ == b@),
{
    let n = a.unicode_len();
    if n != b.unicode_len() {
        return false;
    }
    let mut i: usize = 0;
    while i < n
        invariant
            n == a@.len(),
            n == b@.len(),
            i <= n,
            forall|k: int| 0 <= k < i ==> a@[k] == b@[k],
        decreases n - i,
    {
        if a.get_char(i) != b.get_char(i) {
            return false;
        }
        i = i + 1;
    }
    assert(a@ =~= b@);
    true
}

/// The characters of `s`, one per element.
pub fn chars_of(s: &str) -> (v: Vec<char>)
    ensures
        v@ == s@,
{
    let n = s.unicode_len();
    let mut v: Vec<char> = Vec::new();
    let mut i: usize = 0;
    while i < n
        invariant
            n == s@.len(),
            i <= n,
            v@ =~= s@.subrange(0, i as int),
        decreases n - i,
    {
        v.push(s.get_char(i));
        i = i + 1;
    }
    v
}

/// The string made of `v[lo..hi]`.
pub fn string_of_range(v: &Vec<char>, lo: usize, hi: usize) -> (s: String)
    requires
        lo <= hi <= v.len(),
    ensures
        s@ == v@.subrange(lo as int, hi as int),
{
    let mut s = String::new();
    let mut i: usize = lo;
    while i < hi
        invariant
            lo <= i <= hi <= v.len(),
            s@ =~= v@.subrange(lo as int, i as int),
        decreases hi - i,
    {
        push_char(&mut s, v[i]);
        i = i + 1;
    }
    s
}

/// `a` followed by `b`.
pub fn concat(a: &str, b: &str) -> (s: String)
    ensures
        s@ == a@ + b@,
{
    let mut s = String::from_str(a);
    s.append(b);
    s
}

/// `v[from..]` ends with `suffix`.
pub fn range_ends_with(v: &Vec<char>, from: usize, suffix: &Vec<char>) -> (r: bool)
    requires
        from <= v.len(),
    ensures
        r == ends_with(v@.subrange(from as int, v.len() as int), suffix@),
{
    let n = v.len();
    let m = suffix.len();
    if m > n - from {
        return false;
    }
    let mut i: usize = 0;
    while i < m
        invariant
            n == v.len(),
            m == suffix.len(),
            m <= n - from,
            i <= m,
            forall|j: int| 0 <= j < i ==> v@[n - m + j] == suffix@[j],
        decreases m - i,
    {
        if v[n - m + i] != suffix[i] {
            assert(v@.subrange(from as int, n as int).subrange(n - from - m, n - from)[i as int]
                == v@[n - m + i]);
            return false;
        }
        i = i + 1;
    }
    assert(v@.subrange(from as int, n as int).subrange(n - from - m, n - from) =~= suffix@);
    true
}

/// `v` starts with `prefix`.
pub fn vec_starts_with(v: &Vec<char>, prefix: &Vec<char>) -> (r: bool)
    ensures
        r == starts_with(v@, prefix@),
{
    let m = prefix.len();
    if m > v.len() {
        return false;
    }
    let mut i: usize = 0;
    while i < m
        invariant
            m == prefix.len(),
            m <= v.len(),
            i <= m,
            forall|j: int| 0 <= j < i ==> v@[j] == prefix@[j],
        decreases m - i,
    {
        if v[i] != prefix[i] {
            assert(v@.subrange(0, m as int)[i as int] == v@[i as int]);
            return false;
        }
        i = i + 1;
    }
    assert(v@.subrange(0, m as int) =~= prefix@);
    true
}

} // verus!
