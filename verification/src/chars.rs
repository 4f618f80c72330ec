//! Character-level helpers: equality, lexicographic order and substring
//! search on `&str`, ASCII lower-casing, and the character classes that
//! HTTP header names and values may use.

use vstd::prelude::*;
use vstd::string::StrSliceExecFns;

verus! {

/// Lexicographic (code-point) order on character sequences; the order in
/// which resource parameters and vendor headers are canonicalized.
pub open spec fn seq_char_le(a: Seq<char>, b: Seq<char>) -> bool
    decreases a.len(),
{
    if a.len() == 0 {
        true
    } else if b.len() == 0 {
        false
    } else if a[0] == b[0] {
        seq_char_le(a.drop_first(), b.drop_first())
    } else {
        a[0] < b[0]
    }
}

pub proof fn lemma_seq_char_le_reflexive(a: Seq<char>)
    ensures
        seq_char_le(a, a),
    decreases a.len(),
{
    if a.len() > 0 {
        lemma_seq_char_le_reflexive(a.drop_first());
    }
}

pub proof fn lemma_seq_char_le_total(a: Seq<char>, b: Seq<char>)
    ensures
        seq_char_le(a, b) || seq_char_le(b, a),
    decreases a.len(),
{
    if a.len() > 0 && b.len() > 0 && a[0] == b[0] {
        lemma_seq_char_le_total(a.drop_first(), b.drop_first());
    }
}

pub proof fn lemma_seq_char_le_antisymmetric(a: Seq<char>, b: Seq<char>)
    requires
        seq_char_le(a, b),
        seq_char_le(b, a),
    ensures
        a == b,
    decreases a.len(),
{
    if a.len() == 0 {
        assert(b.len() == 0);
        assert(a =~= b);
    } else {
        assert(a[0] == b[0]);
        lemma_seq_char_le_antisymmetric(a.drop_first(), b.drop_first());
        assert(a.drop_first() == b.drop_first());
        assert(a.len() == b.len());
        assert forall|k: int| 0 <= k < a.len() implies a[k] == b[k] by {
            if k > 0 {
                assert(0 <= k - 1 < a.drop_first().len());
                assert(a.drop_first()[k - 1] == b.drop_first()[k - 1]);
                assert(a[k] == a.drop_first()[k - 1]);
                assert(b[k] == b.drop_first()[k - 1]);
            }
        }
        assert(a =~= b);
    }
}

pub proof fn lemma_seq_char_le_transitive(a: Seq<char>, b: Seq<char>, c: Seq<char>)
    requires
        seq_char_le(a, b),
        seq_char_le(b, c),
    ensures
        seq_char_le(a, c),
    decreases a.len(),
{
    if a.len() > 0 && b.len() > 0 && c.len() > 0 {
        if a[0] == b[0] && b[0] == c[0] {
            lemma_seq_char_le_transitive(a.drop_first(), b.drop_first(), c.drop_first());
        }
    }
}

/// Characters an HTTP header field name may use (the RFC 7230 "token"
/// class).
pub open spec fn is_token_char(c: char) -> bool {
    ||| ('0' <= c && c <= '9')
    ||| ('a' <= c && c <= 'z')
    ||| ('A' <= c && c <= 'Z')
    ||| c == '!'
    ||| c == '#'
    ||| c == '$'
    ||| c == '%'
    ||| c == '&'
    ||| c == '\''
    ||| c == '*'
    ||| c == '+'
    ||| c == '-'
    ||| c == '.'
    ||| c == '^'
    ||| c == '_'
    ||| c == '`'
    ||| c == '|'
    ||| c == '~'
}

/// Characters an HTTP header field value may use: horizontal tab, or
/// visible ASCII together with the space.
pub open spec fn is_value_char(c: char) -> bool {
    c == '\t' || (' ' <= c && c <= '~')
}

pub fn check_token_char(c: char) -> (r: bool)
    ensures
        r == is_token_char(c),
{
    ('0' <= c && c <= '9') || ('a' <= c && c <= 'z') || ('A' <= c && c <= 'Z') || c == '!' || c
        == '#' || c == '$' || c == '%' || c == '&' || c == '\'' || c == '*' || c == '+' || c == '-'
        || c == '.' || c == '^' || c == '_' || c == '`' || c == '|' || c == '~'
}

pub fn check_value_char(c: char) -> (r: bool)
    ensures
        r == is_value_char(c),
{
    c == '\t' || (' ' <= c && c <= '~')
}

/// ASCII lower-casing of one character; characters outside `'A'..='Z'`
/// are kept as they are.
pub open spec fn lower_char(c: char) -> char {
    if 'A' <= c && c <= 'Z' {
        ((c as u8) + 32) as char
    } else {
        c
    }
}

/// ASCII lower-casing of a character sequence.
pub open spec fn lower_seq(s: Seq<char>) -> Seq<char> {
    s.map_values(|c: char| lower_char(c))
}

/// Relies on std's `String::push`: appends one character at the end.
#[verifier::external_body]
pub(crate) fn push_char(s: &mut String, c: char)
    ensures
        final(s)@ == old(s)@.push(c),
{
    s.push(c);
}

/// ASCII lower-casing of a string, one character at a time.
pub fn lower_str(s: &str) -> (r: String)
    ensures
        r@ == lower_seq(s@),
{
    let n = s.unicode_len();
    let mut r = String::new();
    let mut i: usize = 0;
    while i < n
        invariant
            n == s@.len(),
            i <= n,
            r@ == lower_seq(s@).take(i as int),
        decreases n - i,
    {
        let c = s.get_char(i);
        let lc: char = if 'A' <= c && c <= 'Z' {
            ((c as u8) + 32) as char
        } else {
            c
        };
        push_char(&mut r, lc);
        proof {
            assert(lower_seq(s@).take(i + 1) =~= lower_seq(s@).take(i as int).push(
                lower_char(s@[i as int]),
            ));
        }
        i += 1;
    }
    proof {
        assert(lower_seq(s@).take(n as int) =~= lower_seq(s@));
    }
    r
}

/// String equality, decided character by character.
pub fn str_eq(a: &str, b: &str) -> (r: bool)
    ensures
        r == (a@ == b@),
{
    let n = a.unicode_len();
    if n != b.unicode_len() {
        return false;
    }
    let mut i: usize = 0;
    while i < n
        invariant
            n == a@.len(),
            n == b@.len(),
            i <= n,
            forall|j: int| 0 <= j < i ==> a@[j] == b@[j],
        decreases n - i,
    {
        if a.get_char(i) != b.get_char(i) {
            return false;
        }
        i += 1;
    }
    proof {
        assert(a@ =~= b@);
    }
    true
}

proof fn lemma_seq_char_le_common_prefix(a: Seq<char>, b: Seq<char>, i: int)
    requires
        0 <= i <= a.len(),
        i <= b.len(),
        forall|j: int| 0 <= j < i ==> a[j] == b[j],
    ensures
        seq_char_le(a, b) == seq_char_le(a.skip(i), b.skip(i)),
    decreases i,
{
    if i > 0 {
        assert(a.len() > 0 && b.len() > 0);
        assert(a[0] == b[0]);
        assert(forall|j: int| 0 <= j < i - 1 ==> a.drop_first()[j] == b.drop_first()[j]);
        lemma_seq_char_le_common_prefix(a.drop_first(), b.drop_first(), i - 1);
        assert(a.drop_first().skip(i - 1) =~= a.skip(i));
        assert(b.drop_first().skip(i - 1) =~= b.skip(i));
    } else {
        assert(a.skip(0) =~= a);
        assert(b.skip(0) =~= b);
    }
}

/// Lexicographic comparison of two strings, decided character by character.
pub fn str_le(a: &str, b: &str) -> (r: bool)
    ensures
        r == seq_char_le(a@, b@),
{
    let alen = a.unicode_len();
    let blen = b.unicode_len();
    let mut i: usize = 0;
    while i < alen && i < blen
        invariant
            alen == a@.len(),
            blen == b@.len(),
            i <= alen,
            i <= blen,
            forall|j: int| 0 <= j < i ==> a@[j] == b@[j],
        decreases alen - i,
    {
        let ca = a.get_char(i);
        let cb = b.get_char(i);
        if ca != cb {
            proof {
                lemma_seq_char_le_common_prefix(a@, b@, i as int);
            }
            return ca < cb;
        }
        i += 1;
    }
    proof {
        lemma_seq_char_le_common_prefix(a@, b@, i as int);
    }
    alen <= blen
}

/// `pat` occurs in `s` starting at position `i`.
pub open spec fn matches_at(s: Seq<char>, pat: Seq<char>, i: int) -> bool {
    0 <= i && i + pat.len() <= s.len() && s.subrange(i, i + pat.len()) == pat
}

/// `pat` occurs somewhere in `s` (case-sensitive substring match).
pub open spec fn contains_seq(s: Seq<char>, pat: Seq<char>) -> bool {
    exists|i: int| matches_at(s, pat, i)
}

/// The position of the first occurrence of `pat` in `s`, if any.
pub open spec fn find_first(s: Seq<char>, pat: Seq<char>) -> Option<int>
    decreases s.len(),
{
    if matches_at(s, pat, 0) {
        Some(0)
    } else if s.len() == 0 {
        None
    } else {
        match find_first(s.drop_first(), pat) {
            Some(i) => Some(i + 1),
            None => None,
        }
    }
}

proof fn lemma_matches_at_shift(s: Seq<char>, pat: Seq<char>, j: int)
    requires
        s.len() > 0,
        0 <= j,
    ensures
        matches_at(s, pat, j + 1) == matches_at(s.drop_first(), pat, j),
{
    if j + 1 + pat.len() <= s.len() {
        assert(s.subrange(j + 1, j + 1 + pat.len()) =~= s.drop_first().subrange(
            j,
            j + pat.len(),
        ));
    }
}

/// `find_first` returns the first occurrence: a match with none before it,
/// or nothing when there is no match at all.
pub proof fn lemma_find_first(s: Seq<char>, pat: Seq<char>)
    ensures
        match find_first(s, pat) {
            Some(i) => matches_at(s, pat, i) && forall|j: int|
                0 <= j < i ==> !matches_at(s, pat, j),
            None => forall|j: int| !matches_at(s, pat, j),
        },
    decreases s.len(),
{
    if matches_at(s, pat, 0) {
    } else if s.len() == 0 {
    } else {
        lemma_find_first(s.drop_first(), pat);
        assert forall|j: int| 0 <= j implies matches_at(s, pat, j + 1) == matches_at(
            s.drop_first(),
            pat,
            j,
        ) by {
            lemma_matches_at_shift(s, pat, j);
        }
        match find_first(s.drop_first(), pat) {
            Some(i) => {
                assert(matches_at(s, pat, i + 1));
                assert forall|j: int| 0 <= j < i + 1 implies !matches_at(s, pat, j) by {
                    if j > 0 {
                        assert(!matches_at(s.drop_first(), pat, j - 1));
                    }
                }
            },
            None => {
                assert forall|j: int| !matches_at(s, pat, j) by {
                    if j > 0 {
                        assert(!matches_at(s.drop_first(), pat, j - 1));
                    }
                }
            },
        }
    }
}

fn matches_at_exec(s: &str, pat: &str, i: usize, slen: usize) -> (r: bool)
    requires
        slen == s@.len(),
        i + pat@.len() <= s@.len(),
    ensures
        r == matches_at(s@, pat@, i as int),
{
    let m = pat.unicode_len();
    let mut j: usize = 0;
    while j < m
        invariant
            j <= m,
            m == pat@.len(),
            slen == s@.len(),
            i + m <= slen,
            forall|k: int| 0 <= k < j ==> s@[i + k] == pat@[k],
        decreases m - j,
    {
        if s.get_char(i + j) != pat.get_char(j) {
            proof {
                assert(s@.subrange(i as int, i + m) != pat@) by {
                    if s@.subrange(i as int, i + m) == pat@ {
                        assert(s@.subrange(i as int, i + m)[j as int] == s@[i + j]);
                    }
                }
            }
            return false;
        }
        j += 1;
    }
    proof {
        assert(s@.subrange(i as int, i + m) =~= pat@);
    }
    true
}

/// The position of the first occurrence of `pat` in `s`, searched left to
/// right.
pub fn find_sub(s: &str, pat: &str) -> (r: Option<usize>)
    ensures
        match r {
            Some(i) => find_first(s@, pat@) == Some(i as int),
            None => find_first(s@, pat@) is None,
        },
{
    let slen = s.unicode_len();
    let plen = pat.unicode_len();
    if plen > slen {
        proof {
            lemma_find_first(s@, pat@);
            if find_first(s@, pat@) is Some {
                assert(matches_at(s@, pat@, find_first(s@, pat@)->Some_0));
            }
        }
        return None;
    }
    if plen == 0 {
        proof {
            assert(s@.subrange(0, 0) =~= pat@);
            assert(matches_at(s@, pat@, 0));
        }
        return Some(0);
    }
    let mut i: usize = 0;
    while i < slen - plen + 1
        invariant
            slen == s@.len(),
            plen == pat@.len(),
            0 < plen <= slen,
            i <= slen - plen + 1,
            forall|j: int| 0 <= j < i ==> !matches_at(s@, pat@, j),
        decreases slen - plen + 1 - i,
    {
        if matches_at_exec(s, pat, i, slen) {
            proof {
                lemma_find_first(s@, pat@);
                match find_first(s@, pat@) {
                    Some(k) => {
                        if k < i {
                            assert(!matches_at(s@, pat@, k));
                        }
                        if k > i {
                            assert(!matches_at(s@, pat@, i as int));
                        }
                    },
                    None => {
                        assert(!matches_at(s@, pat@, i as int));
                    },
                }
            }
            return Some(i);
        }
        i += 1;
    }
    proof {
        lemma_find_first(s@, pat@);
        if find_first(s@, pat@) is Some {
            let k = find_first(s@, pat@)->Some_0;
            assert(matches_at(s@, pat@, k));
        }
    }
    None
}

/// Whether `pat` occurs in `s`, as a case-sensitive substring.
pub fn contains_sub(s: &str, pat: &str) -> (r: bool)
    ensures
        r == contains_seq(s@, pat@),
{
    proof {
        lemma_find_first(s@, pat@);
    }
    match find_sub(s, pat) {
        Some(_) => true,
        None => false,
    }
}

/// Whether `pat` is a prefix of `s`.
pub fn str_starts_with(s: &str, pat: &str) -> (r: bool)
    ensures
        r == matches_at(s@, pat@, 0),
{
    let slen = s.unicode_len();
    let plen = pat.unicode_len();
    if plen > slen {
        return false;
    }
    matches_at_exec(s, pat, 0, slen)
}

/// The position of the last occurrence of `pat` in `s`, if any.
pub open spec fn find_last(s: Seq<char>, pat: Seq<char>) -> Option<int>
    decreases s.len(),
{
    if pat.len() > s.len() {
        None
    } else if matches_at(s, pat, s.len() - pat.len()) {
        Some(s.len() - pat.len())
    } else if s.len() == pat.len() {
        None
    } else {
        find_last(s.drop_last(), pat)
    }
}

proof fn lemma_matches_at_drop_last(s: Seq<char>, pat: Seq<char>, j: int)
    requires
        s.len() > 0,
        j + pat.len() <= s.len() - 1,
    ensures
        matches_at(s, pat, j) == matches_at(s.drop_last(), pat, j),
{
    if 0 <= j {
        assert(s.subrange(j, j + pat.len()) =~= s.drop_last().subrange(j, j + pat.len()));
    }
}

/// `find_last` returns the last occurrence: a match with none after it,
/// or nothing when there is no match at all.
pub proof fn lemma_find_last(s: Seq<char>, pat: Seq<char>)
    ensures
        match find_last(s, pat) {
            Some(i) => matches_at(s, pat, i) && forall|j: int| i < j ==> !matches_at(s, pat, j),
            None => forall|j: int| !matches_at(s, pat, j),
        },
    decreases s.len(),
{
    if pat.len() > s.len() {
    } else if matches_at(s, pat, s.len() - pat.len()) {
    } else if s.len() == pat.len() {
        assert forall|j: int| !matches_at(s, pat, j) by {
            if 0 <= j && j + pat.len() <= s.len() {
                assert(j == s.len() - pat.len());
            }
        }
    } else {
        lemma_find_last(s.drop_last(), pat);
        assert forall|j: int| j + pat.len() <= s.len() - 1 implies matches_at(s, pat, j)
            == matches_at(s.drop_last(), pat, j) by {
            lemma_matches_at_drop_last(s, pat, j);
        }
        match find_last(s.drop_last(), pat) {
            Some(i) => {
                assert(matches_at(s, pat, i));
                assert forall|j: int| i < j implies !matches_at(s, pat, j) by {
                    if j + pat.len() <= s.len() - 1 {
                        assert(!matches_at(s.drop_last(), pat, j));
                    } else if j + pat.len() == s.len() {
                        assert(j == s.len() - pat.len());
                    }
                }
            },
            None => {
                assert forall|j: int| !matches_at(s, pat, j) by {
                    if j + pat.len() <= s.len() - 1 {
                        assert(!matches_at(s.drop_last(), pat, j));
                    } else if 0 <= j && j + pat.len() == s.len() {
                        assert(j == s.len() - pat.len());
                    }
                }
            },
        }
    }
}

/// The position of the last occurrence of `pat` in `s`, searched right to
/// left.
pub fn find_sub_last(s: &str, pat: &str) -> (r: Option<usize>)
    ensures
        match r {
            Some(i) => find_last(s@, pat@) == Some(i as int),
            None => find_last(s@, pat@) is None,
        },
{
    let slen = s.unicode_len();
    let plen = pat.unicode_len();
    if plen > slen {
        proof {
            lemma_find_last(s@, pat@);
            if find_last(s@, pat@) is Some {
                assert(matches_at(s@, pat@, find_last(s@, pat@)->Some_0));
            }
        }
        return None;
    }
    if plen == 0 {
        proof {
            assert(s@.subrange(slen as int, slen as int) =~= pat@);
            assert(matches_at(s@, pat@, slen as int));
        }
        return Some(slen);
    }
    let mut i = slen - plen + 1;
    while i > 0
        invariant
            slen == s@.len(),
            plen == pat@.len(),
            0 < plen <= slen,
            i <= slen - plen + 1,
            forall|j: int| i <= j ==> !matches_at(s@, pat@, j),
        decreases i,
    {
        i -= 1;
        if matches_at_exec(s, pat, i, slen) {
            proof {
                lemma_find_last(s@, pat@);
                match find_last(s@, pat@) {
                    Some(k) => {
                        if k > i {
                            assert(!matches_at(s@, pat@, k));
                        }
                        if k < i {
                            assert(!matches_at(s@, pat@, i as int));
                        }
                    },
                    None => {
                        assert(!matches_at(s@, pat@, i as int));
                    },
                }
            }
            return Some(i);
        }
    }
    proof {
        lemma_find_last(s@, pat@);
        if find_last(s@, pat@) is Some {
            let k = find_last(s@, pat@)->Some_0;
            assert(matches_at(s@, pat@, k));
        }
    }
    None
}

/// The white space of XML text: space, tab, carriage return, line feed.
pub open spec fn is_xml_space(c: char) -> bool {
    c == ' ' || c == '\t' || c == '\r' || c == '\n'
}

pub open spec fn trim_front(s: Seq<char>) -> Seq<char>
    decreases s.len(),
{
    if s.len() > 0 && is_xml_space(s[0]) {
        trim_front(s.drop_first())
    } else {
        s
    }
}

pub open spec fn trim_back(s: Seq<char>) -> Seq<char>
    decreases s.len(),
{
    if s.len() > 0 && is_xml_space(s.last()) {
        trim_back(s.drop_last())
    } else {
        s
    }
}

/// `s` with its leading and trailing XML white space removed.
pub open spec fn trim_spaces(s: Seq<char>) -> Seq<char> {
    trim_back(trim_front(s))
}

proof fn lemma_trim_front_skip(s: Seq<char>, a: int)
    requires
        0 <= a <= s.len(),
        forall|j: int| 0 <= j < a ==> is_xml_space(#[trigger] s[j]),
        a == s.len() || !is_xml_space(s[a]),
    ensures
        trim_front(s) == s.skip(a),
    decreases a,
{
    if a == 0 {
        assert(s.skip(0) =~= s);
    } else {
        assert(is_xml_space(s[0]));
        assert(forall|j: int|
            0 <= j < a - 1 ==> is_xml_space(#[trigger] s.drop_first()[j]));
        lemma_trim_front_skip(s.drop_first(), a - 1);
        assert(s.drop_first().skip(a - 1) =~= s.skip(a));
    }
}

proof fn lemma_trim_back_take(s: Seq<char>, b: int)
    requires
        0 <= b <= s.len(),
        forall|j: int| b <= j < s.len() ==> is_xml_space(#[trigger] s[j]),
        b == 0 || !is_xml_space(s[b - 1]),
    ensures
        trim_back(s) == s.take(b),
    decreases s.len() - b,
{
    if b == s.len() {
        assert(s.take(b) =~= s);
    } else {
        assert(is_xml_space(s.last()));
        assert(forall|j: int|
            b <= j < s.len() - 1 ==> is_xml_space(#[trigger] s.drop_last()[j]));
        lemma_trim_back_take(s.drop_last(), b);
        assert(s.drop_last().take(b) =~= s.take(b));
    }
}

fn check_xml_space(c: char) -> (r: bool)
    ensures
        r == is_xml_space(c),
{
    c == ' ' || c == '\t' || c == '\r' || c == '\n'
}

/// Removes leading and trailing XML white space from a string.
pub fn trim_str(s: &str) -> (r: String)
    ensures
        r@ == trim_spaces(s@),
{
    let n = s.unicode_len();
    let mut a: usize = 0;
    while a < n && check_xml_space(s.get_char(a))
        invariant
            n == s@.len(),
            a <= n,
            forall|j: int| 0 <= j < a ==> is_xml_space(#[trigger] s@[j]),
        decreases n - a,
    {
        a += 1;
    }
    let mut b: usize = n;
    while b > a && check_xml_space(s.get_char(b - 1))
        invariant
            n == s@.len(),
            a <= b <= n,
            forall|j: int| 0 <= j < a ==> is_xml_space(#[trigger] s@[j]),
            a == n || !is_xml_space(s@[a as int]),
            forall|j: int| b <= j < n ==> is_xml_space(#[trigger] s@[j]),
        decreases b,
    {
        b -= 1;
    }
    proof {
        lemma_trim_front_skip(s@, a as int);
        let t = s@.skip(a as int);
        assert forall|j: int| b - a <= j < t.len() implies is_xml_space(#[trigger] t[j]) by {
            assert(t[j] == s@[a + j]);
        }
        if b > a {
            assert(!is_xml_space(t[b - a - 1]));
        }
        lemma_trim_back_take(t, b - a);
        assert(t.take(b - a) =~= s@.subrange(a as int, b as int));
    }
    s.substring_char(a, b).to_owned()
}

/// `s` with its first occurrence of `pat`, if any, removed.
pub open spec fn remove_first_spec(s: Seq<char>, pat: Seq<char>) -> Seq<char> {
    match find_first(s, pat) {
        Some(i) => s.take(i) + s.skip(i + pat.len()),
        None => s,
    }
}

/// Removes the first occurrence of `pat` from `s`, if there is one.
pub fn remove_first(s: &str, pat: &str) -> (r: String)
    ensures
        r@ == remove_first_spec(s@, pat@),
{
    let slen = s.unicode_len();
    let plen = pat.unicode_len();
    match find_sub(s, pat) {
        Some(i) => {
            proof {
                lemma_find_first(s@, pat@);
            }
            let pre = s.substring_char(0, i);
            let post = s.substring_char(i + plen, slen);
            let mut out = pre.to_owned();
            out.append(post);
            proof {
                assert(s@.subrange(0, i as int) =~= s@.take(i as int));
                assert(s@.subrange(i + plen, slen as int) =~= s@.skip(i + plen));
            }
            out
        },
        None => s.to_owned(),
    }
}

} // verus!
