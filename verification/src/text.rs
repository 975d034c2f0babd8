//! Character-level text helpers shared by the parsers of this crate.
//!
//! Strings are handled as sequences of `char`s: `s@` is the character
//! sequence of a `&str` or `String`. The spec functions here say what the
//! usual `str` operations (trim, starts_with, contains, ...) mean on those
//! sequences.
use vstd::prelude::*;

verus! {

broadcast use vstd::string::group_string_axioms;

/// Unicode `White_Space`, as `char::is_whitespace` defines it.
pub open spec fn is_ws(c: char) -> bool {
    let u = c as u32;
    ||| 0x09 <= u <= 0x0d
    ||| u == 0x20
    ||| u == 0x85
    ||| u == 0xa0
    ||| u == 0x1680
    ||| 0x2000 <= u <= 0x200a
    ||| u == 0x2028
    ||| u == 0x2029
    ||| u == 0x202f
    ||| u == 0x205f
    ||| u == 0x3000
}

/// `c` is in the Unicode `Cc` (control) category, as `char::is_control` defines it.
pub open spec fn is_ctrl(c: char) -> bool {
    let u = c as u32;
    u <= 0x1f || (0x7f <= u <= 0x9f)
}

/// `s` without leading whitespace.
pub open spec fn trim_start(s: Seq<char>) -> Seq<char>
    decreases s.len(),
{
    if s.len() > 0 && is_ws(s[0]) {
        trim_start(s.drop_first())
    } else {
        s
    }
}

/// `s` without trailing whitespace.
pub open spec fn trim_end(s: Seq<char>) -> Seq<char>
    decreases s.len(),
{
    if s.len() > 0 && is_ws(s.last()) {
        trim_end(s.drop_last())
    } else {
        s
    }
}

/// `s` without leading and trailing whitespace (`str::trim`).
pub open spec fn trim(s: Seq<char>) -> Seq<char> {
    trim_end(trim_start(s))
}

/// `s` is empty or whitespace only.
pub open spec fn is_blank(s: Seq<char>) -> bool {
    trim(s).len() == 0
}

/// `p` is a prefix of `s`.
pub open spec fn starts_with<T>(s: Seq<T>, p: Seq<T>) -> bool {
    p.len() <= s.len() && s.subrange(0, p.len() as int) == p
}

/// `p` occurs in `s` at position `i`.
pub open spec fn occurs_at<T>(s: Seq<T>, p: Seq<T>, i: int) -> bool {
    0 <= i && i + p.len() <= s.len() && s.subrange(i, i + p.len()) == p
}

/// `p` occurs somewhere in `s`.
pub open spec fn contains_seq<T>(s: Seq<T>, p: Seq<T>) -> bool {
    exists|i: int| occurs_at(s, p, i)
}

/// First position at or after `from` where `p` occurs in `s`, if any.
#[verifier::opaque]
pub open spec fn first_occurrence_from<T>(s: Seq<T>, p: Seq<T>, from: int) -> Option<int> {
    if exists|i: int| from <= i && occurs_at(s, p, i) {
        Some(choose|i: int| from <= i && occurs_at(s, p, i) && forall|j: int| from <= j < i ==> !occurs_at(s, p, j))
    } else {
        None
    }
}

/// ASCII lower-casing of one character (`char::to_ascii_lowercase`).
pub open spec fn ascii_lower(c: char) -> char {
    if 'A' <= c && c <= 'Z' {
        ((c as u32) + 32) as char
    } else {
        c
    }
}

/// ASCII lower-casing of a character sequence (`str::to_ascii_lowercase`).
pub open spec fn ascii_lower_seq(s: Seq<char>) -> Seq<char> {
    s.map_values(|c: char| ascii_lower(c))
}

/// Lower-cased form of a string as `str::to_lowercase` computes it (full Unicode case mapping).
pub uninterp spec fn lowercase_of(s: Seq<char>) -> Seq<char>;

/// Lower-cases a string with `str::to_lowercase`.
///
/// Trusted: `str::to_lowercase` applies the Unicode lower-case mapping to each
/// character; each character maps to one or more characters, so a non-empty
/// string stays non-empty. The mapping itself is not restated here: the
/// result is named `lowercase_of` of the input.
#[verifier::external_body]
pub(crate) fn to_lowercase(s: &str) -> (r: String)
    ensures
        r@ == lowercase_of(s@),
        s@.len() > 0 ==> r@.len() > 0,
{
    s.to_lowercase()
}

/// Upper-cased form of a string as `str::to_uppercase` computes it (full Unicode case mapping).
pub uninterp spec fn uppercase_of(s: Seq<char>) -> Seq<char>;

/// Upper-cases a string with `str::to_uppercase`.
///
/// Trusted: `str::to_uppercase` applies the Unicode upper-case mapping to each
/// character; each character maps to one or more characters, so a non-empty
/// string stays non-empty. The mapping itself is not restated here: the
/// result is named `uppercase_of` of the input.
#[verifier::external_body]
pub(crate) fn to_uppercase(s: &str) -> (r: String)
    ensures
        r@ == uppercase_of(s@),
        s@.len() > 0 ==> r@.len() > 0,
{
    s.to_uppercase()
}

/// Appends one character to a `String` (`String::push`).
#[verifier::external_body]
pub(crate) fn push_char(s: &mut String, c: char)
    ensures
        final(s)@ == old(s)@.push(c),
{
    s.push(c)
}

/// Appends a string slice to a `String` (`String::push_str`).
#[verifier::external_body]
pub(crate) fn push_str(s: &mut String, t: &str)
    ensures
        final(s)@ == old(s)@ + t@,
{
    s.push_str(t)
}

/// The characters of a string slice, in order.
pub fn chars_of(s: &str) -> (v: Vec<char>)
    ensures
        v@ == s@,
{
    let mut v: Vec<char> = Vec::new();
    for c in it: s.chars()
        invariant
            v@ == it.seq().take(it.index() as int),
            it.seq() == s@,
    {
        v.push(c);
    }
    v
}

/// A `String` holding the characters `v@[from..to]`.
pub fn string_of_range(v: &Vec<char>, from: usize, to: usize) -> (s: String)
    requires
        from <= to <= v.len(),
    ensures
        s@ == v@.subrange(from as int, to as int),
{
    let mut s = String::new();
    let mut i = from;
    while i < to
        invariant
            from <= i <= to <= v.len(),
            s@ == v@.subrange(from as int, i as int),
        decreases to - i,
    {
        push_char(&mut s, v[i]);
        assert(v@.subrange(from as int, i + 1) =~= v@.subrange(from as int, i as int).push(v@[i as int]));
        i += 1;
    }
    s
}

/// A `String` holding the characters of `v`.
pub fn string_of(v: &Vec<char>) -> (s: String)
    ensures
        s@ == v@,
{
    let s = string_of_range(v, 0, v.len());
    assert(v@.subrange(0, v@.len() as int) =~= v@);
    s
}

/// An owned copy of a string slice.
pub fn owned(s: &str) -> (r: String)
    ensures
        r@ == s@,
{
    s.to_owned()
}

/// Whether `c` is whitespace (`char::is_whitespace`).
pub fn is_whitespace(c: char) -> (b: bool)
    ensures
        b == is_ws(c),
{
    let u = c as u32;
    (0x09 <= u && u <= 0x0d) || u == 0x20 || u == 0x85 || u == 0xa0 || u == 0x1680 || (0x2000
        <= u && u <= 0x200a) || u == 0x2028 || u == 0x2029 || u == 0x202f || u == 0x205f || u
        == 0x3000
}

/// Whether `c` is a control character (`char::is_control`).
pub fn is_control(c: char) -> (b: bool)
    ensures
        b == is_ctrl(c),
{
    let u = c as u32;
    u <= 0x1f || (0x7f <= u && u <= 0x9f)
}

proof fn lemma_trim_start_step(s: Seq<char>, i: int)
    requires
        0 <= i < s.len(),
        is_ws(s[i]),
    ensures
        trim_start(s.subrange(i, s.len() as int)) == trim_start(s.subrange(i + 1, s.len() as int)),
{
    let t = s.subrange(i, s.len() as int);
    assert(t.drop_first() =~= s.subrange(i + 1, s.len() as int));
}

proof fn lemma_trim_end_step(s: Seq<char>, j: int)
    requires
        0 < j <= s.len(),
        is_ws(s[j - 1]),
    ensures
        trim_end(s.subrange(0, j)) == trim_end(s.subrange(0, j - 1)),
{
    let t = s.subrange(0, j);
    assert(t.drop_last() =~= s.subrange(0, j - 1));
}

/// Bounds `(start, end)` of the trimmed part of `v`: `trim(v@) == v@[start..end]`.
pub fn trim_bounds(v: &Vec<char>) -> (r: (usize, usize))
    ensures
        r.0 <= r.1 <= v.len(),
        v@.subrange(r.0 as int, r.1 as int) == trim(v@),
        trim_start(v@) == v@.subrange(r.0 as int, v.len() as int),
{
    let mut i: usize = 0;
    assert(v@.subrange(0, v.len() as int) =~= v@);
    while i < v.len() && is_whitespace(v[i])
        invariant
            i <= v.len(),
            trim_start(v@) == trim_start(v@.subrange(i as int, v.len() as int)),
        decreases v.len() - i,
    {
        proof {
            lemma_trim_start_step(v@, i as int);
        }
        i += 1;
    }
    let ghost rest = v@.subrange(i as int, v.len() as int);
    assert(trim_start(v@) == rest) by {
        if i < v.len() {
            assert(rest[0] == v@[i as int]);
        }
    }
    let mut j: usize = v.len();
    assert(rest.subrange(0, rest.len() as int) =~= rest);
    while j > i && is_whitespace(v[j - 1])
        invariant
            i <= j <= v.len(),
            rest == v@.subrange(i as int, v.len() as int),
            trim_end(rest) == trim_end(v@.subrange(i as int, j as int)),
        decreases j,
    {
        proof {
            let w = v@.subrange(i as int, j as int);
            assert(w.drop_last() =~= v@.subrange(i as int, j - 1));
            assert(w.last() == v@[j - 1]);
        }
        j -= 1;
    }
    proof {
        let w = v@.subrange(i as int, j as int);
        if j > i {
            assert(w.last() == v@[j - 1]);
        }
    }
    (i, j)
}

/// The characters of `s` without surrounding whitespace (`str::trim`).
pub fn trimmed_chars(s: &str) -> (t: Vec<char>)
    ensures
        t@ == trim(s@),
{
    let v = chars_of(s);
    let (a, b) = trim_bounds(&v);
    slice_vec(&v, a, b)
}

/// A copy of `v@[from..to]`.
pub fn slice_vec<T: Copy>(v: &Vec<T>, from: usize, to: usize) -> (r: Vec<T>)
    requires
        from <= to <= v.len(),
    ensures
        r@ == v@.subrange(from as int, to as int),
{
    let mut r: Vec<T> = Vec::new();
    let mut i = from;
    while i < to
        invariant
            from <= i <= to <= v.len(),
            r@ == v@.subrange(from as int, i as int),
        decreases to - i,
    {
        r.push(v[i]);
        assert(v@.subrange(from as int, i + 1) =~= v@.subrange(from as int, i as int).push(
            v@[i as int],
        ));
        i += 1;
    }
    r
}

/// Whether `p` occurs in `s` at position `at`.
pub fn chars_match_at(s: &Vec<char>, p: &Vec<char>, at: usize) -> (b: bool)
    ensures
        b == occurs_at(s@, p@, at as int),
{
    if at > s.len() || p.len() > s.len() - at {
        return false;
    }
    let mut k: usize = 0;
    while k < p.len()
        invariant
            at + p.len() <= s.len(),
            k <= p.len(),
            forall|m: int| 0 <= m < k ==> s@[at + m] == p@[m],
        decreases p.len() - k,
    {
        if s[at + k] != p[k] {
            assert(s@.subrange(at as int, at + p.len())[k as int] != p@[k as int]);
            return false;
        }
        k += 1;
    }
    assert(s@.subrange(at as int, at + p.len()) =~= p@);
    true
}

/// Whether `p` is a prefix of `s`.
pub fn chars_start_with(s: &Vec<char>, p: &Vec<char>) -> (b: bool)
    ensures
        b == starts_with(s@, p@),
{
    chars_match_at(s, p, 0)
}

/// First position at or after `from` where `p` occurs in `s`.
pub fn chars_find_from(s: &Vec<char>, p: &Vec<char>, from: usize) -> (r: Option<usize>)
    ensures
        r matches Some(i) ==> from <= i && occurs_at(s@, p@, i as int) && forall|j: int|
            from <= j < i ==> !occurs_at(s@, p@, j),
        r is None ==> forall|j: int| from <= j ==> !occurs_at(s@, p@, j),
{
    if from > s.len() {
        return None;
    }
    let mut i = from;
    loop
        invariant
            from <= i <= s.len(),
            forall|j: int| from <= j < i ==> !occurs_at(s@, p@, j),
        decreases s.len() - i,
    {
        if chars_match_at(s, p, i) {
            return Some(i);
        }
        if i == s.len() {
            return None;
        }
        i += 1;
    }
}

/// Whether `p` occurs in `s`.
pub fn chars_contain(s: &Vec<char>, p: &Vec<char>) -> (b: bool)
    ensures
        b == contains_seq(s@, p@),
{
    match chars_find_from(s, p, 0) {
        Some(i) => true,
        None => {
            assert forall|j: int| !occurs_at(s@, p@, j) by {
                if 0 <= j {
                }
            }
            false
        },
    }
}

/// Whether two character sequences are equal.
pub fn chars_equal(a: &Vec<char>, b: &Vec<char>) -> (r: bool)
    ensures
        r == (a@ == b@),
{
    if a.len() != b.len() {
        return false;
    }
    let mut i: usize = 0;
    while i < a.len()
        invariant
            a.len() == b.len(),
            i <= a.len(),
            forall|k: int| 0 <= k < i ==> a@[k] == b@[k],
        decreases a.len() - i,
    {
        if a[i] != b[i] {
            return false;
        }
        i += 1;
    }
    assert(a@ =~= b@);
    true
}

/// ASCII lower-casing of one character.
pub fn to_ascii_lower(c: char) -> (r: char)
    ensures
        r == ascii_lower(c),
{
    if 'A' <= c && c <= 'Z' {
        let b = (c as u8) + 32;
        b as char
    } else {
        c
    }
}

/// ASCII lower-casing of a character vector.
pub fn chars_ascii_lower(v: &Vec<char>) -> (r: Vec<char>)
    ensures
        r@ == ascii_lower_seq(v@),
{
    let mut r: Vec<char> = Vec::new();
    let mut i: usize = 0;
    while i < v.len()
        invariant
            i <= v.len(),
            r@ == ascii_lower_seq(v@.subrange(0, i as int)),
        decreases v.len() - i,
    {
        r.push(to_ascii_lower(v[i]));
        assert(ascii_lower_seq(v@.subrange(0, i + 1)) =~= ascii_lower_seq(
            v@.subrange(0, i as int),
        ).push(ascii_lower(v@[i as int])));
        i += 1;
    }
    assert(v@.subrange(0, v.len() as int) =~= v@);
    r
}

/// Whether two strings are equal up to ASCII case (`str::eq_ignore_ascii_case`).
pub fn eq_ignore_ascii_case(a: &str, b: &str) -> (r: bool)
    ensures
        r == (ascii_lower_seq(a@) == ascii_lower_seq(b@)),
{
    let la = chars_ascii_lower(&chars_of(a));
    let lb = chars_ascii_lower(&chars_of(b));
    chars_equal(&la, &lb)
}

/// The text of an optional string.
pub open spec fn opt_text(o: Option<String>) -> Option<Seq<char>> {
    match o {
        Some(s) => Some(s@),
        None => None,
    }
}

/// Character views of a sequence of strings.
pub open spec fn views(s: Seq<String>) -> Seq<Seq<char>> {
    s.map_values(|x: String| x@)
}

/// Character views of a sequence of string slices.
pub open spec fn str_views(s: Seq<&str>) -> Seq<Seq<char>> {
    s.map_values(|x: &str| x@)
}

/// The decimal digit `d` (`0 <= d < 10`) as a character.
pub open spec fn digit_char(d: nat) -> char {
    ((48 + d) as u8) as char
}

/// Decimal representation of `n`, without leading zeros.
pub open spec fn decimal(n: nat) -> Seq<char>
    decreases n,
{
    if n < 10 {
        seq![digit_char(n)]
    } else {
        decimal(n / 10).push(digit_char(n % 10))
    }
}

/// Appends the decimal representation of `n`.
pub fn push_decimal(s: &mut String, n: u64)
    ensures
        final(s)@ == old(s)@ + decimal(n as nat),
    decreases n,
{
    if n >= 10 {
        push_decimal(s, n / 10);
    }
    let d = (n % 10) as u8;
    push_char(s, (48u8 + d) as char);
    proof {
        if n >= 10 {
            assert(old(s)@ + decimal((n / 10) as nat) + seq![digit_char((n % 10) as nat)] =~= old(
                s,
            )@ + decimal(n as nat));
        } else {
            assert(old(s)@.push(digit_char(n as nat)) =~= old(s)@ + decimal(n as nat));
        }
    }
}

/// The decimal representation of `n` (`n.to_string()`).
pub fn decimal_string(n: u64) -> (s: String)
    ensures
        s@ == decimal(n as nat),
{
    let mut s = String::new();
    push_decimal(&mut s, n);
    assert(Seq::<char>::empty() + decimal(n as nat) =~= decimal(n as nat));
    s
}

/// `s` without the entries equal to `x` (order kept).
pub open spec fn without_value<T>(s: Seq<T>, x: T) -> Seq<T>
    decreases s.len(),
{
    if s.len() == 0 {
        s
    } else if s.last() == x {
        without_value(s.drop_last(), x)
    } else {
        without_value(s.drop_last(), x).push(s.last())
    }
}

/// `x` pushed at the back of `s`; the front entry goes first when `s` already holds `limit`.
pub open spec fn push_capped<T>(s: Seq<T>, x: T, limit: nat) -> Seq<T> {
    if s.len() >= limit {
        s.drop_first().push(x)
    } else {
        s.push(x)
    }
}

/// Moves `x` to the back of a recency list: older copies go, then the list is capped.
pub open spec fn push_recent_unique<T>(s: Seq<T>, x: T, limit: nat) -> Seq<T> {
    push_capped(without_value(s, x), x, limit)
}

/// What `without_value` keeps.
pub proof fn lemma_without_value<T>(s: Seq<T>, x: T)
    ensures
        without_value(s, x).len() <= s.len(),
        forall|y: T| #[trigger] without_value(s, x).contains(y) <==> (s.contains(y) && y != x),
        s.no_duplicates() ==> without_value(s, x).no_duplicates(),
    decreases s.len(),
{
    if s.len() > 0 {
        let init = s.drop_last();
        lemma_without_value(init, x);
        let w = without_value(init, x);
        assert forall|y: T| #[trigger] init.contains(y) implies s.contains(y) by {
            let k = choose|k: int| 0 <= k < init.len() && init[k] == y;
            assert(s[k] == y);
        }
        assert forall|y: T| #[trigger] s.contains(y) && y != s.last() implies init.contains(y) by {
            let k = choose|k: int| 0 <= k < s.len() && s[k] == y;
            assert(init[k] == y);
        }
        if s.no_duplicates() {
            assert(init.no_duplicates()) by {
                assert forall|i: int, j: int|
                    0 <= i < init.len() && 0 <= j < init.len() && i != j implies init[i]
                    != init[j] by {
                    assert(init[i] == s[i] && init[j] == s[j]);
                }
            }
            assert(!init.contains(s.last())) by {
                if init.contains(s.last()) {
                    let k = choose|k: int| 0 <= k < init.len() && init[k] == s.last();
                    assert(s[k] == s[s.len() - 1]);
                }
            }
        }
        if s.last() != x {
            let r = w.push(s.last());
            assert forall|y: T| #[trigger] r.contains(y) <==> (s.contains(y) && y != x) by {
                if r.contains(y) {
                    let k = choose|k: int| 0 <= k < r.len() && r[k] == y;
                    if k < w.len() {
                        assert(w[k] == y);
                        assert(w.contains(y));
                    } else {
                        assert(s[s.len() - 1] == y);
                    }
                }
                if s.contains(y) && y != x {
                    if y == s.last() {
                        assert(r[w.len() as int] == y);
                    } else {
                        assert(w.contains(y));
                        let k = choose|k: int| 0 <= k < w.len() && w[k] == y;
                        assert(r[k] == y);
                    }
                }
            }
            if s.no_duplicates() {
                assert(!w.contains(s.last()));
                assert forall|i: int, j: int| 0 <= i < r.len() && 0 <= j < r.len() && i != j implies r[i]
                    != r[j] by {
                    if i < w.len() && j < w.len() {
                        assert(r[i] == w[i] && r[j] == w[j]);
                    } else if i < w.len() {
                        assert(r[i] == w[i]);
                        assert(w.contains(w[i]));
                    } else {
                        assert(r[j] == w[j]);
                        assert(w.contains(w[j]));
                    }
                }
            }
        } else {
            assert forall|y: T| #[trigger] w.contains(y) <==> (s.contains(y) && y != x) by {
                if s.contains(y) && y != x {
                    assert(init.contains(y));
                }
            }
        }
    }
}

/// Law: a recency list with distinct entries keeps them distinct, ends with the
/// newest entry, and stays within its limit.
pub proof fn law_push_recent_unique<T>(s: Seq<T>, x: T, limit: nat)
    requires
        s.no_duplicates(),
        s.len() <= limit,
        limit >= 1,
    ensures
        push_recent_unique(s, x, limit).no_duplicates(),
        push_recent_unique(s, x, limit).last() == x,
        push_recent_unique(s, x, limit).len() <= limit,
        forall|y: T| #[trigger]
            push_recent_unique(s, x, limit).contains(y) ==> (s.contains(y) || y == x),
{
    lemma_without_value(s, x);
    let w = without_value(s, x);
    let base = if w.len() >= limit {
        w.drop_first()
    } else {
        w
    };
    assert(base.no_duplicates()) by {
        if w.len() >= limit {
            assert forall|i: int, j: int|
                0 <= i < base.len() && 0 <= j < base.len() && i != j implies base[i] != base[j] by {
                assert(base[i] == w[i + 1] && base[j] == w[j + 1]);
            }
        }
    }
    assert forall|y: T| #[trigger] base.contains(y) implies w.contains(y) by {
        let k = choose|k: int| 0 <= k < base.len() && base[k] == y;
        if w.len() >= limit {
            assert(w[k + 1] == y);
        } else {
            assert(w[k] == y);
        }
    }
    let r = base.push(x);
    assert(r == push_recent_unique(s, x, limit));
    assert(!base.contains(x));
    assert forall|i: int, j: int| 0 <= i < r.len() && 0 <= j < r.len() && i != j implies r[i]
        != r[j] by {
        if i < base.len() && j < base.len() {
            assert(r[i] == base[i] && r[j] == base[j]);
        } else if i < base.len() {
            assert(r[i] == base[i]);
            assert(base.contains(base[i]));
        } else {
            assert(r[j] == base[j]);
            assert(base.contains(base[j]));
        }
    }
    assert forall|y: T| #[trigger] r.contains(y) implies (s.contains(y) || y == x) by {
        let k = choose|k: int| 0 <= k < r.len() && r[k] == y;
        if k < base.len() {
            assert(base[k] == y);
            assert(base.contains(y));
        }
    }
}

/// Removes from `q` every string equal to `x`, keeping the order of the others.
pub fn remove_matching(q: &mut std::collections::VecDeque<String>, x: &String)
    ensures
        views(final(q)@) == without_value(views(old(q)@), x@),
{
    let mut kept: std::collections::VecDeque<String> = std::collections::VecDeque::new();
    let mut i: usize = 0;
    let n = q.len();
    while i < n
        invariant
            n == q@.len(),
            q@ == old(q)@,
            i <= n,
            views(kept@) == without_value(views(q@.subrange(0, i as int)), x@),
        decreases n - i,
    {
        let item = &q[i];
        let ghost pre = q@.subrange(0, i as int);
        assert(q@.subrange(0, i + 1) == pre.push(q@[i as int]));
        assert(views(pre.push(q@[i as int])) =~= views(pre).push(q@[i as int]@));
        assert(views(pre.push(q@[i as int])).drop_last() =~= views(pre));
        if *item != *x {
            kept.push_back(item.clone());
            assert(views(kept@) =~= without_value(views(pre), x@).push(q@[i as int]@));
        }
        i += 1;
    }
    assert(q@.subrange(0, n as int) =~= q@);
    *q = kept;
}

/// Moves `x` to the back of the recency list `q` (capped at `limit` entries).
pub fn recent_unique_push(q: &mut std::collections::VecDeque<String>, x: String, limit: usize)
    requires
        limit >= 1,
    ensures
        views(final(q)@) == push_recent_unique(views(old(q)@), x@, limit as nat),
{
    remove_matching(q, &x);
    let ghost w = q@;
    if q.len() >= limit {
        q.pop_front();
        assert(views(q@) =~= views(w).drop_first());
    }
    let ghost before = q@;
    q.push_back(x);
    assert(views(q@) =~= views(before).push(x@));
}


/// The first occurrence found by a search is the one `first_occurrence_from` names.
pub proof fn lemma_first_occurrence_is<T>(s: Seq<T>, p: Seq<T>, from: int, i: int)
    requires
        from <= i,
        occurs_at(s, p, i),
        forall|j: int| from <= j < i ==> !occurs_at(s, p, j),
    ensures
        first_occurrence_from(s, p, from) == Some(i),
{
    reveal(first_occurrence_from);
    assert(exists|k: int| from <= k && occurs_at(s, p, k));
    let k = choose|k: int| from <= k && occurs_at(s, p, k) && forall|j: int| from <= j < k ==> !occurs_at(s, p, j);
    assert(from <= i && occurs_at(s, p, i) && forall|j: int| from <= j < i ==> !occurs_at(s, p, j));
    if k < i {
        assert(!occurs_at(s, p, k));
    }
    if i < k {
        assert(!occurs_at(s, p, i));
    }
}

/// Whether `p` occurs in `s` at position `at` (byte slices).
pub fn bytes_match_at(s: &[u8], p: &[u8], at: usize) -> (b: bool)
    ensures
        b == occurs_at(s@, p@, at as int),
{
    if at > s.len() || p.len() > s.len() - at {
        return false;
    }
    let mut k: usize = 0;
    while k < p.len()
        invariant
            at + p@.len() <= s@.len(),
            at + p.len() <= s.len(),
            k <= p.len(),
            forall|m: int| 0 <= m < k ==> s@[at + m] == p@[m],
        decreases p@.len() - k,
    {
        if s[at + k] != p[k] {
            assert(s@.subrange(at as int, at + p@.len())[k as int] != p@[k as int]);
            return false;
        }
        k += 1;
    }
    assert(s@.subrange(at as int, at + p@.len()) =~= p@);
    true
}

/// First position at or after `from` where `p` occurs in `s` (byte slices).
pub fn bytes_find_from(s: &[u8], p: &[u8], from: usize) -> (r: Option<usize>)
    ensures
        r matches Some(i) ==> first_occurrence_from(s@, p@, from as int) == Some(i as int),
        r is None ==> first_occurrence_from(s@, p@, from as int) is None,
        r matches Some(i) ==> from <= i && occurs_at(s@, p@, i as int),
{
    if from > s.len() {
        assert forall|j: int| from <= j implies !occurs_at(s@, p@, j) by {}
        reveal(first_occurrence_from);
        return None;
    }
    let mut i = from;
    loop
        invariant
            from <= i <= s@.len(),
            forall|j: int| from <= j < i ==> !occurs_at(s@, p@, j),
        decreases s@.len() - i,
    {
        if bytes_match_at(s, p, i) {
            proof {
                lemma_first_occurrence_is(s@, p@, from as int, i as int);
            }
            return Some(i);
        }
        if i == s.len() {
            assert forall|j: int| from <= j implies !occurs_at(s@, p@, j) by {
                if j > i {
                }
            }
            reveal(first_occurrence_from);
            return None;
        }
        i += 1;
    }
}

/// Length of `v` without its trailing whitespace: `trim_end(v@) == v@[..n]`.
pub fn trim_end_len(v: &Vec<char>) -> (n: usize)
    ensures
        n <= v.len(),
        v@.subrange(0, n as int) == trim_end(v@),
{
    let mut j: usize = v.len();
    assert(v@.subrange(0, v.len() as int) =~= v@);
    while j > 0 && is_whitespace(v[j - 1])
        invariant
            j <= v.len(),
            trim_end(v@) == trim_end(v@.subrange(0, j as int)),
        decreases j,
    {
        proof {
            lemma_trim_end_step(v@, j as int);
        }
        j -= 1;
    }
    proof {
        let w = v@.subrange(0, j as int);
        if j > 0 {
            assert(w.last() == v@[j - 1]);
        }
    }
    j
}

/// In valid UTF-8, an ASCII byte on a character boundary ends a character.
pub proof fn lemma_ascii_ends_char(b: Seq<u8>, i: int)
    requires
        vstd::utf8::valid_utf8(b),
        0 <= i < b.len(),
        b[i] < 0x80,
    ensures
        vstd::utf8::is_char_boundary(b, i),
        vstd::utf8::is_char_boundary(b, i + 1),
    decreases b.len(),
{
    broadcast use vstd::utf8::is_char_boundary_iff_is_leading_byte;

    assert(vstd::utf8::is_leading_byte_width_1(b[i]));
    assert(vstd::utf8::is_char_boundary(b, i));
    reveal_with_fuel(vstd::utf8::is_char_boundary, 2);
    reveal_with_fuel(vstd::utf8::valid_utf8, 2);
    let l = vstd::utf8::length_of_first_scalar(b);
    let tail = vstd::utf8::pop_first_scalar(b);
    if i == 0 {
        assert(vstd::utf8::is_leading_byte_width_1(b[0]));
        assert(l == 1);
    } else {
        assert(vstd::utf8::is_char_boundary(tail, i - l));
        assert(tail =~= b.subrange(l, b.len() as int));
        if i - l < 0 {
            assert(false);
        }
        assert(tail[i - l] == b[i]);
        lemma_ascii_ends_char(tail, i - l);
    }
}

} // verus!
