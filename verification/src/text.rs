//! Character-level helpers shared by the name, format and path logic.
//!
//! Names and paths are handled as sequences of `char`. The ASCII case folding,
//! suffix tests, substring search, `str::trim` and UTF-8 sizes are short enough
//! to state exactly and are proved here; full Unicode lower-casing and the
//! Unicode alphanumeric class are taken from std through the two trusted
//! wrappers at the end of this file.
use vstd::prelude::*;

verus! {

// ---------------------------------------------------------------------------
// Specifications
// ---------------------------------------------------------------------------

/// ASCII lower-casing of one character (`char::to_ascii_lowercase`): capital
/// letters `A`..`Z` move down by 32, every other character is unchanged.
pub open spec fn ascii_lower(c: char) -> char {
    if 'A' <= c && c <= 'Z' {
        ((c as u32) + 32) as char
    } else {
        c
    }
}

/// `str::to_ascii_lowercase` on a character sequence.
pub open spec fn ascii_lower_seq(s: Seq<char>) -> Seq<char> {
    s.map_values(|c: char| ascii_lower(c))
}

/// `str::eq_ignore_ascii_case`: equal after ASCII lower-casing both sides.
pub open spec fn eq_ignore_ascii_case(a: Seq<char>, b: Seq<char>) -> bool {
    ascii_lower_seq(a) == ascii_lower_seq(b)
}

/// `s` ends with `suffix`.
pub open spec fn ends_with(s: Seq<char>, suffix: Seq<char>) -> bool {
    suffix.len() <= s.len() && s.subrange(s.len() - suffix.len(), s.len() as int) == suffix
}

/// `s` starts with `prefix`.
pub open spec fn starts_with(s: Seq<char>, prefix: Seq<char>) -> bool {
    prefix.len() <= s.len() && s.subrange(0, prefix.len() as int) == prefix
}

/// `needle` occurs in `hay` starting at position `i`.
pub open spec fn occurs_at(hay: Seq<char>, needle: Seq<char>, i: int) -> bool {
    0 <= i && i + needle.len() <= hay.len() && hay.subrange(i, i + needle.len()) == needle
}

/// `str::contains` with a string pattern: `needle` occurs somewhere in `hay`
/// (the empty needle occurs everywhere).
pub open spec fn contains(hay: Seq<char>, needle: Seq<char>) -> bool {
    exists|i: int| occurs_at(hay, needle, i)
}

/// The Unicode `White_Space` property, which is what `char::is_whitespace`
/// tests.
pub open spec fn is_white_space(c: char) -> bool {
    let u = c as u32;
    ||| 0x09 <= u && u <= 0x0D
    ||| u == 0x20
    ||| u == 0x85
    ||| u == 0xA0
    ||| u == 0x1680
    ||| 0x2000 <= u && u <= 0x200A
    ||| u == 0x2028
    ||| u == 0x2029
    ||| u == 0x202F
    ||| u == 0x205F
    ||| u == 0x3000
}

/// `s` without its leading white space.
pub open spec fn trim_front(s: Seq<char>) -> Seq<char>
    decreases s.len(),
{
    if s.len() > 0 && is_white_space(s[0]) {
        trim_front(s.drop_first())
    } else {
        s
    }
}

/// `s` without its trailing white space.
pub open spec fn trim_back(s: Seq<char>) -> Seq<char>
    decreases s.len(),
{
    if s.len() > 0 && is_white_space(s.last()) {
        trim_back(s.drop_last())
    } else {
        s
    }
}

/// `str::trim`: leading and trailing white space removed.
pub open spec fn trimmed(s: Seq<char>) -> Seq<char> {
    trim_back(trim_front(s))
}

/// Number of bytes `c` takes in UTF-8 (`char::len_utf8`).
pub open spec fn utf8_len(c: char) -> nat {
    let u = c as u32;
    if u < 0x80 {
        1
    } else if u < 0x800 {
        2
    } else if u < 0x10000 {
        3
    } else {
        4
    }
}

/// Number of bytes `s` takes in UTF-8 (`str::len`).
pub open spec fn utf8_size(s: Seq<char>) -> nat
    decreases s.len(),
{
    if s.len() == 0 {
        0
    } else {
        utf8_size(s.drop_last()) + utf8_len(s.last())
    }
}

/// The pieces of `list` joined with `sep` between neighbours (`slice::join`).
pub open spec fn join(list: Seq<Seq<char>>, sep: Seq<char>) -> Seq<char>
    decreases list.len(),
{
    if list.len() == 0 {
        Seq::empty()
    } else if list.len() == 1 {
        list[0]
    } else {
        join(list.drop_last(), sep) + sep + list.last()
    }
}

/// What `str::to_lowercase` returns for `s`: full Unicode lower-casing,
/// including the context-dependent rules (final sigma) that the Unicode
/// SpecialCasing table lists.
pub uninterp spec fn unicode_lower(s: Seq<char>) -> Seq<char>;

/// What `char::is_alphanumeric` returns for `c`: membership in the Unicode
/// `Alphabetic` property or the `Numeric` general categories.
pub uninterp spec fn unicode_alphanumeric(c: char) -> bool;

/// An ASCII character (code point below 128).
pub open spec fn is_ascii_char(c: char) -> bool {
    (c as u32) < 128
}

/// Every character of `s` is ASCII.
pub open spec fn all_ascii(s: Seq<char>) -> bool {
    forall|i: int| 0 <= i < s.len() ==> is_ascii_char(#[trigger] s[i])
}

/// An ASCII letter or digit.
pub open spec fn ascii_alphanumeric(c: char) -> bool {
    ('a' <= c && c <= 'z') || ('A' <= c && c <= 'Z') || ('0' <= c && c <= '9')
}

/// Lower-cased text as `str::to_lowercase` gives it: on ASCII text exactly the
/// ASCII lower-casing, otherwise full Unicode lower-casing.
pub open spec fn lowered(s: Seq<char>) -> Seq<char> {
    if all_ascii(s) {
        ascii_lower_seq(s)
    } else {
        unicode_lower(s)
    }
}

/// Whether `char::is_alphanumeric` holds: on ASCII exactly the letters and
/// digits, otherwise the Unicode property.
pub open spec fn word_char(c: char) -> bool {
    if is_ascii_char(c) {
        ascii_alphanumeric(c)
    } else {
        unicode_alphanumeric(c)
    }
}

// ---------------------------------------------------------------------------
// Executable helpers
// ---------------------------------------------------------------------------

/// The characters of `s`, in order.
pub fn chars_of(s: &str) -> (res: Vec<char>)
    ensures
        res@ == s@,
{
    let mut v: Vec<char> = Vec::new();
    for c in it: s.chars()
        invariant
            v@ == it.seq().take(it.index() as int),
    {
        v.push(c);
    }
    v
}

/// `c` lower-cased if it is an ASCII capital letter.
pub fn lower_ascii_char(c: char) -> (r: char)
    ensures
        r == ascii_lower(c),
{
    if 'A' <= c && c <= 'Z' {
        let b: u8 = (c as u32 + 32) as u8;
        b as char
    } else {
        c
    }
}

/// ASCII lower-casing of a whole sequence.
pub fn lower_ascii(s: &[char]) -> (r: Vec<char>)
    ensures
        r@ == ascii_lower_seq(s@),
{
    let mut v: Vec<char> = Vec::new();
    let mut i: usize = 0;
    while i < s.len()
        invariant
            i <= s.len(),
            v@ == ascii_lower_seq(s@.take(i as int)),
        decreases s.len() - i,
    {
        let c = lower_ascii_char(s[i]);
        v.push(c);
        i = i + 1;
        assert(ascii_lower_seq(s@.take(i as int)) =~= ascii_lower_seq(s@.take(i - 1)).push(
            ascii_lower(s@[i - 1]),
        ));
    }
    assert(s@.take(s.len() as int) =~= s@);
    v
}

/// Whether the two sequences are equal.
pub fn same_chars(a: &[char], b: &[char]) -> (r: bool)
    ensures
        r == (a@ == b@),
{
    if a.len() != b.len() {
        return false;
    }
    let mut i: usize = 0;
    while i < a.len()
        invariant
            a.len() == b.len(),
            i <= a.len(),
            forall|k: int| 0 <= k < i ==> a@[k] == b@[k],
        decreases a.len() - i,
    {
        if a[i] != b[i] {
            return false;
        }
        i = i + 1;
    }
    assert(a@ =~= b@);
    true
}

/// Whether `needle` occurs in `hay` at position `at`.
fn matches_at(hay: &[char], needle: &[char], at: usize) -> (r: bool)
    requires
        at + needle.len() <= hay.len(),
    ensures
        r == occurs_at(hay@, needle@, at as int),
{
    let mut k: usize = 0;
    while k < needle.len()
        invariant
            at + needle.len() <= hay.len(),
            k <= needle.len(),
            forall|j: int| 0 <= j < k ==> hay@[at + j] == needle@[j],
        decreases needle.len() - k,
    {
        if hay[at + k] != needle[k] {
            assert(hay@.subrange(at as int, at + needle.len())[k as int] != needle@[k as int]);
            return false;
        }
        k = k + 1;
    }
    assert(hay@.subrange(at as int, at + needle.len()) =~= needle@);
    true
}

/// Whether `s` ends with `suffix`.
pub fn ends_with_chars(s: &[char], suffix: &[char]) -> (r: bool)
    ensures
        r == ends_with(s@, suffix@),
{
    if suffix.len() > s.len() {
        return false;
    }
    matches_at(s, suffix, s.len() - suffix.len())
}

/// Whether `s` starts with `prefix`.
pub fn starts_with_chars(s: &[char], prefix: &[char]) -> (r: bool)
    ensures
        r == starts_with(s@, prefix@),
{
    if prefix.len() > s.len() {
        return false;
    }
    matches_at(s, prefix, 0)
}

/// Whether `needle` occurs anywhere in `hay`.
pub fn contains_chars(hay: &[char], needle: &[char]) -> (r: bool)
    ensures
        r == contains(hay@, needle@),
{
    if needle.len() > hay.len() {
        assert forall|i: int| !occurs_at(hay@, needle@, i) by {}
        return false;
    }
    if needle.len() == 0 {
        assert(hay@.subrange(0, 0) =~= needle@);
        assert(occurs_at(hay@, needle@, 0));
        return true;
    }
    let mut i: usize = 0;
    while needle.len() <= hay.len() - i
        invariant
            1 <= needle.len() <= hay.len(),
            i <= hay.len(),
            forall|j: int| 0 <= j < i ==> !occurs_at(hay@, needle@, j),
        decreases hay.len() - i,
    {
        if matches_at(hay, needle, i) {
            return true;
        }
        i = i + 1;
    }
    assert forall|j: int| !occurs_at(hay@, needle@, j) by {
        if 0 <= j && j + needle.len() <= hay.len() {
            assert(j < i);
        }
    }
    false
}

/// `char::is_whitespace`: the Unicode `White_Space` property.
pub fn is_whitespace(c: char) -> (r: bool)
    ensures
        r == is_white_space(c),
{
    let u = c as u32;
    (0x09 <= u && u <= 0x0D) || u == 0x20 || u == 0x85 || u == 0xA0 || u == 0x1680 || (0x2000
        <= u && u <= 0x200A) || u == 0x2028 || u == 0x2029 || u == 0x202F || u == 0x205F || u
        == 0x3000
}

proof fn lemma_trim_front_skip(s: Seq<char>, i: int)
    requires
        0 <= i <= s.len(),
        forall|k: int| 0 <= k < i ==> is_white_space(s[k]),
    ensures
        trim_front(s) == trim_front(s.subrange(i, s.len() as int)),
    decreases i,
{
    if i > 0 {
        assert(is_white_space(s[0]));
        assert(s.drop_first() =~= s.subrange(1, s.len() as int));
        assert forall|k: int| 0 <= k < i - 1 implies is_white_space(s.drop_first()[k]) by {
            assert(s.drop_first()[k] == s[k + 1]);
        }
        lemma_trim_front_skip(s.drop_first(), i - 1);
        assert(s.drop_first().subrange(i - 1, s.drop_first().len() as int) =~= s.subrange(
            i,
            s.len() as int,
        ));
    } else {
        assert(s.subrange(0, s.len() as int) =~= s);
    }
}

proof fn lemma_trim_back_cut(s: Seq<char>, j: int)
    requires
        0 <= j <= s.len(),
        forall|k: int| j <= k < s.len() ==> is_white_space(s[k]),
    ensures
        trim_back(s) == trim_back(s.subrange(0, j)),
    decreases s.len() - j,
{
    if j < s.len() {
        assert(s.drop_last() =~= s.subrange(0, s.len() - 1));
        lemma_trim_back_cut(s.drop_last(), j);
        assert(s.drop_last().subrange(0, j) =~= s.subrange(0, j));
    } else {
        assert(s.subrange(0, j) =~= s);
    }
}

/// `str::trim` on a character sequence.
pub fn trim_chars(s: &[char]) -> (r: Vec<char>)
    ensures
        r@ == trimmed(s@),
{
    let mut i: usize = 0;
    while i < s.len() && is_whitespace(s[i])
        invariant
            i <= s.len(),
            forall|k: int| 0 <= k < i ==> is_white_space(s@[k]),
        decreases s.len() - i,
    {
        i = i + 1;
    }
    proof {
        lemma_trim_front_skip(s@, i as int);
    }
    let mut j: usize = s.len();
    while j > i && is_whitespace(s[j - 1])
        invariant
            i <= j <= s.len(),
            forall|k: int| j <= k < s.len() ==> is_white_space(s@[k]),
        decreases j,
    {
        j = j - 1;
    }
    let ghost rest = s@.subrange(i as int, s.len() as int);
    proof {
        // the front of `rest` is not white (or `rest` is empty)
        if i < s.len() {
            assert(!is_white_space(rest[0]));
        }
        assert(trim_front(rest) == rest);
        lemma_trim_back_cut(rest, j - i);
        assert(rest.subrange(0, j - i) =~= s@.subrange(i as int, j as int));
        let mid = s@.subrange(i as int, j as int);
        if j > i {
            assert(!is_white_space(mid.last()));
        }
        assert(trim_back(mid) == mid);
    }
    let mut out: Vec<char> = Vec::new();
    let mut k: usize = i;
    while k < j
        invariant
            i <= k <= j <= s.len(),
            out@ == s@.subrange(i as int, k as int),
        decreases j - k,
    {
        out.push(s[k]);
        k = k + 1;
        assert(out@ =~= s@.subrange(i as int, k as int));
    }
    out
}

/// Bytes `c` takes in UTF-8.
pub fn len_utf8(c: char) -> (r: usize)
    ensures
        r == utf8_len(c),
        1 <= r <= 4,
{
    let u = c as u32;
    if u < 0x80 {
        1
    } else if u < 0x800 {
        2
    } else if u < 0x10000 {
        3
    } else {
        4
    }
}

/// Whether `s` takes at least `n` bytes in UTF-8 (`s.len() >= n` on a `str`).
pub fn utf8_size_at_least(s: &[char], n: usize) -> (r: bool)
    requires
        n <= usize::MAX - 4,
    ensures
        r == (utf8_size(s@) >= n),
{
    if n == 0 {
        return true;
    }
    let mut acc: usize = 0;
    let mut i: usize = 0;
    assert(s@.take(0) =~= Seq::<char>::empty());
    while i < s.len()
        invariant
            i <= s.len(),
            n <= usize::MAX - 4,
            acc == utf8_size(s@.take(i as int)),
            acc < n,
        decreases s.len() - i,
    {
        let l = len_utf8(s[i]);
        if acc + l >= n {
            proof {
                lemma_utf8_size_prefix_grows(s@, i as int + 1);
                assert(s@.take(i + 1).drop_last() =~= s@.take(i as int));
            }
            return true;
        }
        acc = acc + l;
        i = i + 1;
        assert(s@.take(i as int).drop_last() =~= s@.take(i - 1));
    }
    assert(s@.take(s.len() as int) =~= s@);
    false
}

proof fn lemma_utf8_size_prefix_grows(s: Seq<char>, i: int)
    requires
        0 <= i <= s.len(),
    ensures
        utf8_size(s.take(i)) <= utf8_size(s),
    decreases s.len() - i,
{
    if i < s.len() {
        lemma_utf8_size_prefix_grows(s, i + 1);
        assert(s.take(i + 1).drop_last() =~= s.take(i));
    } else {
        assert(s.take(i) =~= s);
    }
}

/// `list` joined with `sep`.
pub fn join_chars(list: &Vec<Vec<char>>, sep: &[char]) -> (r: Vec<char>)
    ensures
        r@ == join(list@.map_values(|v: Vec<char>| v@), sep@),
{
    let ghost views = list@.map_values(|v: Vec<char>| v@);
    let mut out: Vec<char> = Vec::new();
    let mut i: usize = 0;
    while i < list.len()
        invariant
            i <= list.len(),
            views == list@.map_values(|v: Vec<char>| v@),
            out@ == join(views.take(i as int), sep@),
        decreases list.len() - i,
    {
        if i > 0 {
            out.extend_from_slice(sep);
        }
        out.extend_from_slice(list[i].as_slice());
        i = i + 1;
        assert(views.take(i as int).drop_last() =~= views.take(i - 1));
        if i == 1 {
            assert(views.take(1)[0] == list@[0]@);
        }
    }
    assert(views.take(list.len() as int) =~= views);
    out
}

// ---------------------------------------------------------------------------
// Lexicographic order
// ---------------------------------------------------------------------------

/// Lexicographic order on character sequences by code point, a proper prefix
/// first. This is the order `String`'s `Ord` gives: it compares the UTF-8
/// bytes, and UTF-8 orders as the code points it encodes.
pub open spec fn lex_lt(a: Seq<char>, b: Seq<char>) -> bool
    decreases a.len(),
{
    if a.len() == 0 {
        b.len() > 0
    } else if b.len() == 0 {
        false
    } else if a[0] != b[0] {
        a[0] < b[0]
    } else {
        lex_lt(a.drop_first(), b.drop_first())
    }
}

/// `a` is a proper prefix of `b`.
pub open spec fn proper_prefix(a: Seq<char>, b: Seq<char>) -> bool {
    a.len() < b.len() && b.subrange(0, a.len() as int) == a
}

/// `a` and `b` agree before position `i`, and there `a` has the smaller
/// character.
pub open spec fn first_difference_below(a: Seq<char>, b: Seq<char>, i: int) -> bool {
    0 <= i < a.len() && i < b.len() && a.subrange(0, i) == b.subrange(0, i) && a[i] < b[i]
}

/// `lex_lt` is the order of `String`'s `Ord` (byte order of UTF-8, which is
/// code-point order): `a` comes first when it is a proper prefix of `b`, or
/// when at the first position where they differ `a` has the smaller
/// character. Length decides nothing else.
pub proof fn lemma_lex_lt_is_string_order(a: Seq<char>, b: Seq<char>)
    ensures
        lex_lt(a, b) <==> (proper_prefix(a, b) || exists|i: int| first_difference_below(a, b, i)),
    decreases a.len(),
{
    if a.len() == 0 {
        if b.len() > 0 {
            assert(b.subrange(0, 0) =~= a);
        }
    } else if b.len() == 0 {
    } else if a[0] != b[0] {
        if a[0] < b[0] {
            assert(a.subrange(0, 0) =~= b.subrange(0, 0));
            assert(first_difference_below(a, b, 0));
        } else {
            if proper_prefix(a, b) {
                assert(b.subrange(0, a.len() as int)[0] == b[0]);
            }
            assert forall|i: int| !first_difference_below(a, b, i) by {
                if first_difference_below(a, b, i) && i > 0 {
                    assert(a.subrange(0, i)[0] == a[0]);
                    assert(b.subrange(0, i)[0] == b[0]);
                }
            }
        }
    } else {
        let a1 = a.drop_first();
        let b1 = b.drop_first();
        lemma_lex_lt_is_string_order(a1, b1);
        if proper_prefix(a, b) {
            let pb = b1.subrange(0, a1.len() as int);
            assert(pb =~= a1) by {
                assert forall|k: int| 0 <= k < a1.len() implies #[trigger] pb[k] == a1[k] by {
                    assert(b.subrange(0, a.len() as int)[k + 1] == a[k + 1]);
                }
            }
        }
        if proper_prefix(a1, b1) {
            let pb = b.subrange(0, a.len() as int);
            assert(pb =~= a) by {
                assert forall|k: int| 0 <= k < a.len() implies #[trigger] pb[k] == a[k] by {
                    if k > 0 {
                        assert(b1.subrange(0, a1.len() as int)[k - 1] == a1[k - 1]);
                    }
                }
            }
        }
        if exists|i: int| first_difference_below(a, b, i) {
            let i = choose|i: int| first_difference_below(a, b, i);
            assert(i > 0);
            let m = i - 1;
            let (pa, pb) = (a1.subrange(0, m), b1.subrange(0, m));
            assert(pa =~= pb) by {
                assert forall|k: int| 0 <= k < m implies #[trigger] pa[k] == pb[k] by {
                    assert(a.subrange(0, i)[k + 1] == b.subrange(0, i)[k + 1]);
                }
            }
            assert(first_difference_below(a1, b1, m));
        }
        if exists|j: int| first_difference_below(a1, b1, j) {
            let j = choose|j: int| first_difference_below(a1, b1, j);
            let m = j + 1;
            let (pa, pb) = (a.subrange(0, m), b.subrange(0, m));
            assert(pa =~= pb) by {
                assert forall|k: int| 0 <= k < m implies #[trigger] pa[k] == pb[k] by {
                    if k > 0 {
                        assert(a1.subrange(0, j)[k - 1] == b1.subrange(0, j)[k - 1]);
                    }
                }
            }
            assert(first_difference_below(a, b, m));
        }
    }
}

/// No sequence comes before itself, and of two different sequences exactly
/// one comes first.
pub proof fn lemma_lex_trichotomy(a: Seq<char>, b: Seq<char>)
    ensures
        !lex_lt(a, a),
        a != b ==> (lex_lt(a, b) != lex_lt(b, a)),
        a == b ==> !lex_lt(a, b),
    decreases a.len(),
{
    if a.len() > 0 {
        lemma_lex_trichotomy(a.drop_first(), a.drop_first());
        if b.len() > 0 {
            lemma_lex_trichotomy(a.drop_first(), b.drop_first());
            if a != b && a[0] == b[0] {
                assert(a.drop_first() != b.drop_first()) by {
                    if a.drop_first() == b.drop_first() {
                        assert forall|k: int| 0 <= k < a.len() implies a[k] == b[k] by {
                            if k > 0 {
                                assert(a[k] == a.drop_first()[k - 1]);
                                assert(b[k] == b.drop_first()[k - 1]);
                            }
                        }
                        assert(a =~= b);
                    }
                }
            }
        }
    } else if b.len() == 0 {
        assert(a =~= b);
    }
}

/// The order is transitive.
pub proof fn lemma_lex_transitive(a: Seq<char>, b: Seq<char>, c: Seq<char>)
    requires
        lex_lt(a, b),
        lex_lt(b, c),
    ensures
        lex_lt(a, c),
    decreases a.len(),
{
    if a.len() > 0 && b.len() > 0 && c.len() > 0 {
        if a[0] == b[0] && b[0] == c[0] {
            lemma_lex_transitive(a.drop_first(), b.drop_first(), c.drop_first());
        }
    }
}

/// Whether `a` comes before `b` in the lexicographic order.
pub fn lex_less(a: &[char], b: &[char]) -> (r: bool)
    ensures
        r == lex_lt(a@, b@),
{
    let mut i: usize = 0;
    assert(a@.skip(0) =~= a@);
    assert(b@.skip(0) =~= b@);
    while i < a.len() && i < b.len()
        invariant
            i <= a.len(),
            i <= b.len(),
            lex_lt(a@, b@) == lex_lt(a@.skip(i as int), b@.skip(i as int)),
        decreases a.len() - i,
    {
        let ghost sa = a@.skip(i as int);
        let ghost sb = b@.skip(i as int);
        assert(sa[0] == a@[i as int]);
        assert(sb[0] == b@[i as int]);
        if a[i] != b[i] {
            return a[i] < b[i];
        }
        assert(sa.drop_first() =~= a@.skip(i + 1));
        assert(sb.drop_first() =~= b@.skip(i + 1));
        i = i + 1;
    }
    assert(a@.skip(i as int).len() == a.len() - i);
    i == a.len() && i < b.len()
}

// ---------------------------------------------------------------------------
// Trusted wrappers around std
// ---------------------------------------------------------------------------

/// Calls `str::to_lowercase`. Trusted to return `unicode_lower` of the input,
/// which only claims that the result is determined by the input's characters,
/// and, for all-ASCII input, its ASCII lower-casing: in the Unicode case
/// mappings std applies, `A`..`Z` map to `a`..`z` and no other ASCII
/// character changes.
#[verifier::external_body]
pub(crate) fn to_lowercase(s: &str) -> (r: String)
    ensures
        r@ == unicode_lower(s@),
        all_ascii(s@) ==> r@ == ascii_lower_seq(s@),
{
    s.to_lowercase()
}

/// Calls `char::is_alphanumeric`. Trusted to return `unicode_alphanumeric`
/// of the character, which only claims that the answer depends on `c` alone,
/// and, for an ASCII character, whether it is a letter or a digit: those are
/// the only ASCII characters that are Alphabetic or Numeric.
#[verifier::external_body]
pub(crate) fn is_alphanumeric(c: char) -> (r: bool)
    ensures
        r == unicode_alphanumeric(c),
        is_ascii_char(c) ==> r == ascii_alphanumeric(c),
{
    c.is_alphanumeric()
}

/// Collects characters into a `String` (`FromIterator<&char> for String`).
/// Trusted to keep exactly these characters in this order, which is what
/// that impl's documentation promises: it pushes each one.
#[verifier::external_body]
pub(crate) fn to_text(v: &[char]) -> (r: String)
    ensures
        r@ == v@,
{
    v.iter().collect()
}

} // verus!
