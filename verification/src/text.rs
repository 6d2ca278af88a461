//! Character sequences: the bridge between `str`/`String` and `Vec<char>`,
//! and the small searching and trimming vocabulary the parser is built on.

use vstd::prelude::*;
use vstd::std_specs::iter::IteratorSpec;

verus! {

/// `String::push` appends exactly one character: the contract restates the
/// standard library's documentation over the string's character view.
pub assume_specification[ String::push ](s: &mut String, c: char)
    ensures
        final(s)@ == old(s)@.push(c),
;

/// The characters of `s`, in order.
pub fn chars_of(s: &str) -> (v: Vec<char>)
    ensures
        v@ == s@,
{
    let mut v: Vec<char> = Vec::new();
    let mut it = s.chars();
    loop
        invariant_except_break
            v@ + it.remaining() == s@,
            it.decrease() is Some,
        ensures
            v@ == s@,
        decreases it.decrease()->0,
    {
        let ghost before = it.remaining();
        match it.next() {
            Some(c) => {
                v.push(c);
                assert(v@ + it.remaining() =~= s@);
            },
            None => {
                assert(v@ + before =~= v@);
                break;
            },
        }
    }
    v
}

/// A `String` holding exactly the characters of `v`.
pub fn string_of(v: &Vec<char>) -> (s: String)
    ensures
        s@ == v@,
{
    let mut s = String::new();
    let mut i: usize = 0;
    while i < v.len()
        invariant
            i <= v.len(),
            s@ == v@.take(i as int),
        decreases v.len() - i,
    {
        s.push(v[i]);
        i = i + 1;
    }
    s
}

/// The character sequences held by a sequence of strings.
pub open spec fn texts(v: Seq<String>) -> Seq<Seq<char>> {
    Seq::new(v.len(), |i: int| v[i]@)
}

/// Whether `c` carries the Unicode `White_Space` property.
pub open spec fn is_space(c: char) -> bool {
    let n = c as u32;
    ||| 0x09 <= n <= 0x0D
    ||| n == 0x20
    ||| n == 0x85
    ||| n == 0xA0
    ||| n == 0x1680
    ||| 0x2000 <= n <= 0x200A
    ||| n == 0x2028
    ||| n == 0x2029
    ||| n == 0x202F
    ||| n == 0x205F
    ||| n == 0x3000
}

/// Executable test for [`is_space`].
pub fn is_space_char(c: char) -> (r: bool)
    ensures
        r == is_space(c),
{
    let n: u32 = c as u32;
    (0x09 <= n && n <= 0x0D) || n == 0x20 || n == 0x85 || n == 0xA0 || n == 0x1680 || (0x2000 <= n
        && n <= 0x200A) || n == 0x2028 || n == 0x2029 || n == 0x202F || n == 0x205F || n == 0x3000
}

/// A set of characters that the scanner can search for or strip away.
#[derive(Clone, Copy, Debug)]
pub enum CharClass {
    /// Exactly the given character.
    Is(char),
    /// Either of the two given characters.
    Either(char, char),
    /// Any Unicode white space.
    Space,
}

impl CharClass {
    /// Membership of `c` in the class.
    pub open spec fn has(self, c: char) -> bool {
        match self {
            CharClass::Is(a) => c == a,
            CharClass::Either(a, b) => c == a || c == b,
            CharClass::Space => is_space(c),
        }
    }

    /// Executable membership test.
    pub fn contains(&self, c: char) -> (r: bool)
        ensures
            r == self.has(c),
    {
        match self {
            CharClass::Is(a) => c == *a,
            CharClass::Either(a, b) => c == *a || c == *b,
            CharClass::Space => is_space_char(c),
        }
    }
}

/// Length of the longest prefix of `s` whose characters all have
/// membership `member` in `class`.
pub open spec fn run_len(s: Seq<char>, class: CharClass, member: bool) -> nat
    decreases s.len(),
{
    if s.len() > 0 && class.has(s[0]) == member {
        1 + run_len(s.drop_first(), class, member)
    } else {
        0
    }
}

/// Length of the longest suffix of `s` whose characters all have
/// membership `member` in `class`.
pub open spec fn run_len_back(s: Seq<char>, class: CharClass, member: bool) -> nat
    decreases s.len(),
{
    if s.len() > 0 && class.has(s.last()) == member {
        1 + run_len_back(s.drop_last(), class, member)
    } else {
        0
    }
}

/// A prefix run is pinned down by its two defining properties: every
/// character before `n` belongs, and the character at `n`, if any, does not.
pub proof fn lemma_run_len_is(s: Seq<char>, class: CharClass, member: bool, n: int)
    requires
        0 <= n <= s.len(),
        forall|j: int| 0 <= j < n ==> class.has(#[trigger] s[j]) == member,
        n < s.len() ==> class.has(s[n]) != member,
    ensures
        run_len(s, class, member) == n,
    decreases s.len(),
{
    if n > 0 {
        let t = s.drop_first();
        assert forall|j: int| 0 <= j < n - 1 implies class.has(#[trigger] t[j]) == member by {
            assert(t[j] == s[j + 1]);
        }
        if n - 1 < t.len() {
            assert(t[n - 1] == s[n]);
        }
        lemma_run_len_is(t, class, member, n - 1);
    }
}

/// The defining properties of a prefix run.
pub proof fn lemma_run_len_props(s: Seq<char>, class: CharClass, member: bool)
    ensures
        run_len(s, class, member) <= s.len(),
        forall|j: int|
            0 <= j < run_len(s, class, member) ==> class.has(#[trigger] s[j]) == member,
        run_len(s, class, member) < s.len() ==> class.has(s[run_len(s, class, member) as int])
            != member,
    decreases s.len(),
{
    if s.len() > 0 && class.has(s[0]) == member {
        let t = s.drop_first();
        lemma_run_len_props(t, class, member);
        let n = run_len(t, class, member) as int;
        assert forall|j: int| 0 <= j < n + 1 implies class.has(#[trigger] s[j]) == member by {
            if j > 0 {
                assert(s[j] == t[j - 1]);
            }
        }
        if n + 1 < s.len() {
            assert(s[n + 1] == t[n]);
        }
    }
}

/// A suffix run is pinned down by its two defining properties.
pub proof fn lemma_run_len_back_is(s: Seq<char>, class: CharClass, member: bool, n: int)
    requires
        0 <= n <= s.len(),
        forall|j: int| s.len() - n <= j < s.len() ==> class.has(#[trigger] s[j]) == member,
        n < s.len() ==> class.has(s[s.len() - n - 1]) != member,
    ensures
        run_len_back(s, class, member) == n,
    decreases s.len(),
{
    if n > 0 {
        let t = s.drop_last();
        assert forall|j: int| t.len() - (n - 1) <= j < t.len() implies class.has(
            #[trigger] t[j],
        ) == member by {
            assert(t[j] == s[j]);
        }
        if n - 1 < t.len() {
            assert(t[t.len() - (n - 1) - 1] == s[s.len() - n - 1]);
        }
        lemma_run_len_back_is(t, class, member, n - 1);
    }
}

/// The defining properties of a suffix run.
pub proof fn lemma_run_len_back_props(s: Seq<char>, class: CharClass, member: bool)
    ensures
        run_len_back(s, class, member) <= s.len(),
        forall|j: int|
            s.len() - run_len_back(s, class, member) <= j < s.len() ==> class.has(#[trigger] s[j])
                == member,
        run_len_back(s, class, member) < s.len() ==> class.has(
            s[s.len() - run_len_back(s, class, member) - 1],
        ) != member,
    decreases s.len(),
{
    if s.len() > 0 && class.has(s.last()) == member {
        let t = s.drop_last();
        lemma_run_len_back_props(t, class, member);
        let n = run_len_back(t, class, member) as int;
        assert forall|j: int| s.len() - (n + 1) <= j < s.len() implies class.has(
            #[trigger] s[j],
        ) == member by {
            if j < s.len() - 1 {
                assert(s[j] == t[j]);
            }
        }
        if n + 1 < s.len() {
            assert(s[s.len() - (n + 1) - 1] == t[t.len() - n - 1]);
        }
    }
}

/// Measures the run of `s` that starts at `from`.
pub fn scan_run(s: &Vec<char>, from: usize, class: CharClass, member: bool) -> (n: usize)
    requires
        from <= s.len(),
    ensures
        n == run_len(s@.skip(from as int), class, member),
        from + n <= s.len(),
{
    let mut i: usize = from;
    while i < s.len() && class.contains(s[i]) == member
        invariant
            from <= i <= s.len(),
            forall|j: int| from <= j < i ==> class.has(#[trigger] s@[j]) == member,
        decreases s.len() - i,
    {
        i = i + 1;
    }
    proof {
        let t = s@.skip(from as int);
        assert forall|j: int| 0 <= j < i - from implies class.has(#[trigger] t[j]) == member by {
            assert(t[j] == s@[from + j]);
        }
        lemma_run_len_is(t, class, member, i - from);
    }
    i - from
}

/// Measures the run of `s` that ends just before `to`.
pub fn scan_run_back(s: &Vec<char>, to: usize, class: CharClass, member: bool) -> (n: usize)
    requires
        to <= s.len(),
    ensures
        n == run_len_back(s@.take(to as int), class, member),
        n <= to,
{
    let mut i: usize = to;
    while i > 0 && class.contains(s[i - 1]) == member
        invariant
            0 <= i <= to <= s.len(),
            forall|j: int| i <= j < to ==> class.has(#[trigger] s@[j]) == member,
        decreases i,
    {
        i = i - 1;
    }
    proof {
        let t = s@.take(to as int);
        assert forall|j: int| t.len() - (to - i) <= j < t.len() implies class.has(
            #[trigger] t[j],
        ) == member by {
            assert(t[j] == s@[j]);
        }
        lemma_run_len_back_is(t, class, member, to - i);
    }
    to - i
}

/// A fresh vector holding `s[lo..hi]`.
pub fn subvec(s: &Vec<char>, lo: usize, hi: usize) -> (r: Vec<char>)
    requires
        lo <= hi <= s.len(),
    ensures
        r@ == s@.subrange(lo as int, hi as int),
{
    let mut r: Vec<char> = Vec::new();
    let mut i: usize = lo;
    while i < hi
        invariant
            lo <= i <= hi <= s.len(),
            r@ == s@.subrange(lo as int, i as int),
        decreases hi - i,
    {
        r.push(s[i]);
        i = i + 1;
    }
    r
}


/// `s` without its leading run of `class`.
pub open spec fn strip_start(s: Seq<char>, class: CharClass) -> Seq<char> {
    s.skip(run_len(s, class, true) as int)
}

/// `s` without its trailing run of `class`.
pub open spec fn strip_end(s: Seq<char>, class: CharClass) -> Seq<char> {
    s.take(s.len() - run_len_back(s, class, true))
}

/// `s` without its leading and trailing runs of `class`.
pub open spec fn strip(s: Seq<char>, class: CharClass) -> Seq<char> {
    strip_end(strip_start(s, class), class)
}

/// `s` without surrounding white space.
pub open spec fn trim(s: Seq<char>) -> Seq<char> {
    strip(s, CharClass::Space)
}

/// Index of the first character of `s` in `class`, or `s.len()` if there is none.
pub open spec fn find(s: Seq<char>, class: CharClass) -> int {
    run_len(s, class, false) as int
}

/// Index of the last character of `s` in `class`, or `-1` if there is none.
pub open spec fn rfind(s: Seq<char>, class: CharClass) -> int {
    s.len() - run_len_back(s, class, false) - 1
}

/// Whether `needle` occurs in `hay` as a contiguous run.
pub open spec fn has_subseq(hay: Seq<char>, needle: Seq<char>) -> bool {
    exists|i: int|
        0 <= i <= hay.len() - needle.len() && #[trigger] hay.subrange(i, i + needle.len())
            == needle
}

/// The maximal runs of non-space characters of `s`, in order.
pub open spec fn words(s: Seq<char>) -> Seq<Seq<char>>
    decreases s.len(),
    via words_decreases
{
    let t = strip_start(s, CharClass::Space);
    let n = find(t, CharClass::Space);
    if n == 0 {
        Seq::empty()
    } else {
        seq![t.take(n)] + words(t.skip(n))
    }
}

#[via_fn]
proof fn words_decreases(s: Seq<char>) {
    lemma_run_len_props(s, CharClass::Space, true);
    lemma_run_len_props(strip_start(s, CharClass::Space), CharClass::Space, false);
}

/// Copies `s` without its leading run of `class`.
pub fn strip_start_vec(s: &Vec<char>, class: CharClass) -> (r: Vec<char>)
    ensures
        r@ == strip_start(s@, class),
{
    assert(s@.skip(0) =~= s@);
    let a = scan_run(s, 0, class, true);
    subvec(s, a, s.len())
}

/// Copies `s` without its trailing run of `class`.
pub fn strip_end_vec(s: &Vec<char>, class: CharClass) -> (r: Vec<char>)
    ensures
        r@ == strip_end(s@, class),
{
    assert(s@.take(s@.len() as int) =~= s@);
    let b = scan_run_back(s, s.len(), class, true);
    subvec(s, 0, s.len() - b)
}

/// Copies `s` without its leading and trailing runs of `class`.
pub fn strip_vec(s: &Vec<char>, class: CharClass) -> (r: Vec<char>)
    ensures
        r@ == strip(s@, class),
{
    let t = strip_start_vec(s, class);
    strip_end_vec(&t, class)
}

/// The character sequences held by a vector of character vectors.
pub open spec fn rows(v: Seq<Vec<char>>) -> Seq<Seq<char>> {
    Seq::new(v.len(), |i: int| v[i]@)
}

/// Splits `s` into its white-space separated words.
pub fn split_words(s: &Vec<char>) -> (r: Vec<Vec<char>>)
    ensures
        rows(r@) == words(s@),
{
    let mut r: Vec<Vec<char>> = Vec::new();
    let mut i: usize = 0;
    assert(s@.skip(0) =~= s@);
    assert(rows(r@) =~= Seq::<Seq<char>>::empty());
    loop
        invariant_except_break
            i <= s.len(),
            words(s@) == rows(r@) + words(s@.skip(i as int)),
        ensures
            rows(r@) == words(s@),
        decreases s.len() - i,
    {
        let a = scan_run(s, i, CharClass::Space, true);
        let j = i + a;
        let b = scan_run(s, j, CharClass::Space, false);
        proof {
            let rest = s@.skip(i as int);
            assert(strip_start(rest, CharClass::Space) =~= s@.skip(j as int));
        }
        if b == 0 {
            proof {
                assert(words(s@.skip(i as int)) =~= Seq::<Seq<char>>::empty());
                assert(rows(r@) + Seq::<Seq<char>>::empty() =~= rows(r@));
            }
            break;
        }
        let w = subvec(s, j, j + b);
        proof {
            let t = s@.skip(j as int);
            assert(t.take(b as int) =~= w@);
            assert(t.skip(b as int) =~= s@.skip(j + b));
            assert(words(s@.skip(i as int)) == seq![w@] + words(s@.skip(j + b)));
        }
        let ghost before = rows(r@);
        r.push(w);
        proof {
            assert(rows(r@) =~= before.push(w@));
            assert(before + (seq![w@] + words(s@.skip(j + b))) =~= before.push(w@) + words(
                s@.skip(j + b),
            ));
        }
        i = j + b;
    }
    r
}

/// Whether `needle` occurs in `hay`.
pub fn contains_subseq(hay: &Vec<char>, needle: &Vec<char>) -> (r: bool)
    ensures
        r == has_subseq(hay@, needle@),
{
    if needle.len() > hay.len() {
        return false;
    }
    let last: usize = hay.len() - needle.len();
    let mut i: usize = 0;
    while i <= last
        invariant
            last == hay.len() - needle.len(),
            i <= last + 1,
            forall|k: int| 0 <= k < i ==> #[trigger] hay@.subrange(k, k + needle.len()) != needle@,
        decreases last + 1 - i,
    {
        let mut j: usize = 0;
        while j < needle.len() && hay[i + j] == needle[j]
            invariant
                i <= last,
                last == hay.len() - needle.len(),
                j <= needle.len(),
                forall|k: int| 0 <= k < j ==> hay@[i + k] == needle@[k],
            decreases needle.len() - j,
        {
            j = j + 1;
        }
        if j == needle.len() {
            assert(hay@.subrange(i as int, i + needle.len()) =~= needle@);
            return true;
        }
        proof {
            let w = hay@.subrange(i as int, i + needle.len());
            assert(w[j as int] == hay@[i + j]);
        }
        i = i + 1;
    }
    false
}


/// Whether `a` and `b` hold the same characters.
pub fn same_chars(a: &Vec<char>, b: &Vec<char>) -> (r: bool)
    ensures
        r == (a@ == b@),
{
    if a.len() != b.len() {
        return false;
    }
    let mut i: usize = 0;
    while i < a.len()
        invariant
            i <= a.len(),
            a.len() == b.len(),
            forall|j: int| 0 <= j < i ==> a@[j] == b@[j],
        decreases a.len() - i,
    {
        if a[i] != b[i] {
            return false;
        }
        i = i + 1;
    }
    assert(a@ =~= b@);
    true
}

/// Whether `s` reads exactly `word`.
pub fn reads(s: &str, word: &str) -> (r: bool)
    ensures
        r == (s@ == word@),
{
    let a = chars_of(s);
    let b = chars_of(word);
    same_chars(&a, &b)
}

/// Appends the characters of `s` to `out`.
pub fn push_chars(out: &mut Vec<char>, s: &Vec<char>)
    ensures
        final(out)@ == old(out)@ + s@,
{
    let mut i: usize = 0;
    assert(out@ =~= old(out)@ + s@.take(0));
    while i < s.len()
        invariant
            i <= s.len(),
            out@ == old(out)@ + s@.take(i as int),
        decreases s.len() - i,
    {
        out.push(s[i]);
        assert(s@.take(i + 1) =~= s@.take(i as int).push(s@[i as int]));
        assert(out@ =~= old(out)@ + s@.take(i + 1));
        i = i + 1;
    }
    assert(s@.take(i as int) =~= s@);
}

} // verus!
