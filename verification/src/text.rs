//! Character-level helpers shared by the modules that build or compare text.

use vstd::prelude::*;

verus! {

/// Whether two string slices hold the same characters.
pub fn str_eq(a: &str, b: &str) -> (r: bool)
    ensures
        r == (a@ == b@),
{
    let n = a.unicode_len();
    if n != b.unicode_len() {
        return false;
    }
    let mut i: usize = 0;
    while i < n
        invariant
            n == a@.len(),
            n == b@.len(),
            i <= n,
            forall|j: int| 0 <= j < i ==> a@[j] == b@[j],
        decreases n - i,
    {
        if a.get_char(i) != b.get_char(i) {
            return false;
        }
        i = i + 1;
    }
    assert(a@ =~= b@);
    true
}

/// Whether `s` begins with the character `c`.
pub fn starts_with_char(s: &str, c: char) -> (r: bool)
    ensures
        r == (s@.len() > 0 && s@[0] == c),
{
    if s.unicode_len() == 0 {
        false
    } else {
        s.get_char(0) == c
    }
}

/// The character sequences of the strings in `v`.
pub open spec fn string_views(v: Seq<String>) -> Seq<Seq<char>> {
    v.map_values(|s: String| s@)
}

/// Whether `s` begins with `p`.
pub fn str_starts_with(s: &str, p: &str) -> (r: bool)
    ensures
        r == p@.is_prefix_of(s@),
{
    let n = p.unicode_len();
    if n > s.unicode_len() {
        return false;
    }
    let mut i: usize = 0;
    while i < n
        invariant
            n == p@.len(),
            n <= s@.len(),
            i <= n,
            forall|j: int| 0 <= j < i ==> s@[j] == p@[j],
        decreases n - i,
    {
        if s.get_char(i) != p.get_char(i) {
            assert(s@.subrange(0, n as int)[i as int] != p@[i as int]);
            return false;
        }
        i = i + 1;
    }
    assert(p@ =~= s@.subrange(0, n as int));
    true
}

/// Whether `s` ends with the character `c`.
pub fn ends_with_char(s: &str, c: char) -> (r: bool)
    ensures
        r == (s@.len() > 0 && s@.last() == c),
{
    let n = s.unicode_len();
    if n == 0 {
        false
    } else {
        s.get_char(n - 1) == c
    }
}

/// The decimal digit character for `d` (`d < 10`).
pub open spec fn digit_char(d: nat) -> char {
    if d == 0 {
        '0'
    } else if d == 1 {
        '1'
    } else if d == 2 {
        '2'
    } else if d == 3 {
        '3'
    } else if d == 4 {
        '4'
    } else if d == 5 {
        '5'
    } else if d == 6 {
        '6'
    } else if d == 7 {
        '7'
    } else if d == 8 {
        '8'
    } else {
        '9'
    }
}

/// The decimal notation of `n`, without leading zeros.
pub open spec fn decimal(n: nat) -> Seq<char>
    decreases n,
{
    if n < 10 {
        seq![digit_char(n)]
    } else {
        decimal(n / 10).push(digit_char(n % 10))
    }
}

fn digit_str(d: u64) -> (s: &'static str)
    requires
        d < 10,
    ensures
        s@ == seq![digit_char(d as nat)],
{
    if d == 0 {
        proof { reveal_strlit("0"); }
        "0"
    } else if d == 1 {
        proof { reveal_strlit("1"); }
        "1"
    } else if d == 2 {
        proof { reveal_strlit("2"); }
        "2"
    } else if d == 3 {
        proof { reveal_strlit("3"); }
        "3"
    } else if d == 4 {
        proof { reveal_strlit("4"); }
        "4"
    } else if d == 5 {
        proof { reveal_strlit("5"); }
        "5"
    } else if d == 6 {
        proof { reveal_strlit("6"); }
        "6"
    } else if d == 7 {
        proof { reveal_strlit("7"); }
        "7"
    } else if d == 8 {
        proof { reveal_strlit("8"); }
        "8"
    } else {
        proof { reveal_strlit("9"); }
        "9"
    }
}

/// Writes `n` in decimal.
pub fn decimal_string(n: u64) -> (s: String)
    ensures
        s@ == decimal(n as nat),
    decreases n,
{
    if n < 10 {
        String::from_str(digit_str(n))
    } else {
        let mut s = decimal_string(n / 10);
        s.append(digit_str(n % 10));
        s
    }
}

/// Appends the decimal notation of `n` to `s`.
pub fn append_decimal(s: &mut String, n: u64)
    ensures
        final(s)@ == old(s)@ + decimal(n as nat),
{
    let d = decimal_string(n);
    s.append(d.as_str());
}


/// The characters of `s` as a vector.
pub fn chars_of(s: &str) -> (v: Vec<char>)
    ensures
        v@ == s@,
{
    let n = s.unicode_len();
    let mut v: Vec<char> = Vec::new();
    let mut i: usize = 0;
    while i < n
        invariant
            n == s@.len(),
            i <= n,
            v@ == s@.take(i as int),
        decreases n - i,
    {
        v.push(s.get_char(i));
        assert(s@.take(i + 1) =~= s@.take(i as int).push(s@[i as int]));
        i = i + 1;
    }
    assert(s@.take(n as int) =~= s@);
    v
}

/// `q` occurs in `s` as a contiguous run of characters.
pub open spec fn has_substring(s: Seq<char>, q: Seq<char>) -> bool {
    exists|i: int| 0 <= i && i + q.len() <= s.len() && #[trigger] s.subrange(i, i + q.len()) == q
}

/// Whether `q` occurs in `s` (the empty string occurs everywhere).
pub fn str_contains(s: &str, q: &str) -> (r: bool)
    ensures
        r == has_substring(s@, q@),
{
    let sv = chars_of(s);
    let qv = chars_of(q);
    let n = sv.len();
    let m = qv.len();
    if m > n {
        assert forall|i: int| 0 <= i && i + q@.len() <= s@.len() implies #[trigger] s@.subrange(
            i,
            i + q@.len(),
        ) != q@ by {}
        return false;
    }
    let mut i: usize = 0;
    while i <= n - m
        invariant
            sv@ == s@,
            qv@ == q@,
            n == s@.len(),
            m == q@.len(),
            m <= n,
            i <= n - m + 1,
            forall|k: int| 0 <= k < i ==> #[trigger] s@.subrange(k, k + m) != q@,
        decreases n - i,
    {
        let mut j: usize = 0;
        let mut same = true;
        while j < m
            invariant
                sv@ == s@,
                qv@ == q@,
                m == q@.len(),
                i + m <= n,
                n == s@.len(),
                j <= m,
                same == (forall|t: int| 0 <= t < j ==> s@[i + t] == q@[t]),
            decreases m - j,
        {
            if sv[i + j] != qv[j] {
                same = false;
            }
            j = j + 1;
        }
        if same {
            assert(s@.subrange(i as int, i + m) =~= q@);
            return true;
        }
        assert(s@.subrange(i as int, i + m) != q@) by {
            let t = choose|t: int| 0 <= t < m && s@[i + t] != q@[t];
            assert(s@.subrange(i as int, i + m)[t] == s@[i + t]);
        }
        i = i + 1;
    }
    false
}

/// The parts joined with `sep` between consecutive parts.
pub open spec fn joined(parts: Seq<Seq<char>>, sep: Seq<char>) -> Seq<char>
    decreases parts.len(),
{
    if parts.len() == 0 {
        Seq::empty()
    } else if parts.len() == 1 {
        parts[0]
    } else {
        joined(parts.drop_last(), sep) + sep + parts.last()
    }
}

/// Joins the strings with `sep` between consecutive ones.
pub fn join_strings(parts: &Vec<String>, sep: &str) -> (r: String)
    ensures
        r@ == joined(parts@.map_values(|p: String| p@), sep@),
{
    let ghost views = parts@.map_values(|p: String| p@);
    let mut r = String::new();
    let mut i: usize = 0;
    assert(views.take(0) =~= Seq::<Seq<char>>::empty());
    while i < parts.len()
        invariant
            i <= parts@.len(),
            views == parts@.map_values(|p: String| p@),
            r@ == joined(views.take(i as int), sep@),
        decreases parts@.len() - i,
    {
        assert(views.take(i + 1).drop_last() =~= views.take(i as int));
        assert(views.take(i + 1).last() == parts@[i as int]@);
        if i > 0 {
            r.append(sep);
        } else {
            assert(views.take(1) =~= seq![parts@[0]@]);
        }
        r.append(parts[i].as_str());
        i = i + 1;
    }
    assert(views.take(parts@.len() as int) =~= views);
    r
}

/// `s` with every `from` replaced by `to`.
pub open spec fn replaced(s: Seq<char>, from: char, to: char) -> Seq<char> {
    s.map_values(|c: char| if c == from { to } else { c })
}

/// `s` with every `from` replaced by the one character of `to`.
pub fn replace_char(s: &str, from: char, to: &str) -> (r: String)
    requires
        to@.len() == 1,
    ensures
        r@ == replaced(s@, from, to@[0]),
{
    let n = s.unicode_len();
    let mut r = String::new();
    let mut i: usize = 0;
    while i < n
        invariant
            n == s@.len(),
            i <= n,
            to@.len() == 1,
            r@ == replaced(s@.take(i as int), from, to@[0]),
        decreases n - i,
    {
        let c = s.get_char(i);
        if c == from {
            r.append(to);
        } else {
            r.append(s.substring_char(i, i + 1));
        }
        assert(replaced(s@.take(i + 1), from, to@[0]) =~= replaced(s@.take(i as int), from, to@[0]).push(
            if c == from { to@[0] } else { c },
        ));
        i = i + 1;
    }
    assert(s@.take(n as int) =~= s@);
    r
}

/// Whether a character is neither `a` nor `b`.
pub open spec fn neither(a: char, b: char) -> spec_fn(char) -> bool {
    |c: char| c != a && c != b
}

/// `s` without any occurrence of `a` or `b`.
pub open spec fn without_chars(s: Seq<char>, a: char, b: char) -> Seq<char> {
    s.filter(neither(a, b))
}

/// `s` without any occurrence of `a` or `b`.
pub fn remove_chars(s: &str, a: char, b: char) -> (r: String)
    ensures
        r@ == without_chars(s@, a, b),
{
    let n = s.unicode_len();
    let mut r = String::new();
    let mut i: usize = 0;
    while i < n
        invariant
            n == s@.len(),
            i <= n,
            r@ == without_chars(s@.take(i as int), a, b),
        decreases n - i,
    {
        let c = s.get_char(i);
        let ghost t = s@.take(i + 1);
        proof {
            assert(t.drop_last() =~= s@.take(i as int));
            reveal(Seq::filter);
        }
        if c != a && c != b {
            r.append(s.substring_char(i, i + 1));
        }
        i = i + 1;
    }
    assert(s@.take(n as int) =~= s@);
    r
}

/// `q` occurs in `s` starting at `i`.
pub open spec fn occurs_at(s: Seq<char>, q: Seq<char>, i: int) -> bool {
    0 <= i && i + q.len() <= s.len() && s.subrange(i, i + q.len()) == q
}

/// `i` is where `q` first occurs in `s`.
pub open spec fn is_first_occurrence(s: Seq<char>, q: Seq<char>, i: int) -> bool {
    occurs_at(s, q, i) && forall|j: int| 0 <= j < i ==> !#[trigger] occurs_at(s, q, j)
}

/// Where `q` first occurs in `s`, if anywhere.
pub open spec fn first_occurrence(s: Seq<char>, q: Seq<char>) -> Option<int> {
    if exists|i: int| #[trigger] is_first_occurrence(s, q, i) {
        Some(choose|i: int| #[trigger] is_first_occurrence(s, q, i))
    } else {
        None
    }
}

proof fn lemma_first_occurrence_is(s: Seq<char>, q: Seq<char>, i: int)
    requires
        is_first_occurrence(s, q, i),
    ensures
        first_occurrence(s, q) == Some(i),
{
    let c = choose|k: int| #[trigger] is_first_occurrence(s, q, k);
    assert(is_first_occurrence(s, q, c));
    if c < i {
        assert(!occurs_at(s, q, c));
    } else if c > i {
        assert(!occurs_at(s, q, i));
    }
}

/// Where `q` first occurs in `s`, counted in characters.
pub fn find_str(s: &str, q: &str) -> (r: Option<usize>)
    ensures
        match r {
            Some(i) => first_occurrence(s@, q@) == Some(i as int),
            None => first_occurrence(s@, q@) is None,
        },
{
    let sv = chars_of(s);
    let qv = chars_of(q);
    let n = sv.len();
    let m = qv.len();
    if m > n {
        assert forall|i: int| !#[trigger] is_first_occurrence(s@, q@, i) by {}
        return None;
    }
    let mut i: usize = 0;
    while i <= n - m
        invariant
            sv@ == s@,
            qv@ == q@,
            n == s@.len(),
            m == q@.len(),
            m <= n,
            i <= n - m + 1,
            forall|k: int| 0 <= k < i ==> !#[trigger] occurs_at(s@, q@, k),
        decreases n - i,
    {
        let mut j: usize = 0;
        let mut same = true;
        while j < m
            invariant
                sv@ == s@,
                qv@ == q@,
                m == q@.len(),
                i + m <= n,
                n == s@.len(),
                j <= m,
                same == (forall|t: int| 0 <= t < j ==> s@[i + t] == q@[t]),
            decreases m - j,
        {
            if sv[i + j] != qv[j] {
                same = false;
            }
            j = j + 1;
        }
        if same {
            assert(s@.subrange(i as int, i + m) =~= q@);
            proof {
                lemma_first_occurrence_is(s@, q@, i as int);
            }
            return Some(i);
        }
        assert(!occurs_at(s@, q@, i as int)) by {
            let t = choose|t: int| 0 <= t < m && s@[i + t] != q@[t];
            assert(s@.subrange(i as int, i + m)[t] == s@[i + t]);
        }
        i = i + 1;
    }
    assert forall|k: int| !#[trigger] is_first_occurrence(s@, q@, k) by {
        if 0 <= k && k + m <= n {
            assert(!occurs_at(s@, q@, k));
        }
    }
    None
}

/// Whether `c` has the Unicode `White_Space` property, the test that
/// `char::is_whitespace` makes.
pub open spec fn is_unicode_whitespace(c: char) -> bool {
    let u = c as u32;
    ||| 0x9 <= u <= 0xd
    ||| u == 0x20
    ||| u == 0x85
    ||| u == 0xa0
    ||| u == 0x1680
    ||| 0x2000 <= u <= 0x200a
    ||| u == 0x2028
    ||| u == 0x2029
    ||| u == 0x202f
    ||| u == 0x205f
    ||| u == 0x3000
}

/// `s` without its leading white space.
pub open spec fn trimmed_start(s: Seq<char>) -> Seq<char>
    decreases s.len(),
{
    if s.len() > 0 && is_unicode_whitespace(s[0]) {
        trimmed_start(s.drop_first())
    } else {
        s
    }
}

/// `s` without its trailing white space.
pub open spec fn trimmed_end(s: Seq<char>) -> Seq<char>
    decreases s.len(),
{
    if s.len() > 0 && is_unicode_whitespace(s.last()) {
        trimmed_end(s.drop_last())
    } else {
        s
    }
}

/// What `str::trim` makes of a string: it without leading and trailing
/// white space.
pub open spec fn trimmed(s: Seq<char>) -> Seq<char> {
    trimmed_end(trimmed_start(s))
}

/// Calls `str::trim`, which removes the leading and trailing characters for
/// which `char::is_whitespace` holds.
#[verifier::external_body]
pub(crate) fn trim_str(s: &str) -> (r: &str)
    ensures
        r@ == trimmed(s@),
{
    s.trim()
}

/// What `str::to_lowercase` makes of a string (Unicode lowercase mapping).
pub uninterp spec fn lowercase(s: Seq<char>) -> Seq<char>;

/// Calls `str::to_lowercase`; the result is named by `lowercase`.
#[verifier::external_body]
pub(crate) fn to_lower(s: &str) -> (r: String)
    ensures
        r@ == lowercase(s@),
{
    s.to_lowercase()
}

} // verus!
