//! Character-level text helpers: splitting, trimming, decimal numbers.

use vstd::prelude::*;

verus! {

/// Unicode `White_Space` code points, the set that `char::is_whitespace` tests.
pub open spec fn is_white(c: char) -> bool {
    ('\u{9}' <= c && c <= '\u{D}') || c == ' ' || c == '\u{85}' || c == '\u{A0}' || c == '\u{1680}'
        || ('\u{2000}' <= c && c <= '\u{200A}') || c == '\u{2028}' || c == '\u{2029}'
        || c == '\u{202F}' || c == '\u{205F}' || c == '\u{3000}'
}

/// `s` without its leading whitespace.
pub open spec fn trim_start(s: Seq<char>) -> Seq<char>
    decreases s.len(),
{
    if s.len() > 0 && is_white(s[0]) {
        trim_start(s.drop_first())
    } else {
        s
    }
}

/// `s` without its trailing whitespace.
pub open spec fn trim_end(s: Seq<char>) -> Seq<char>
    decreases s.len(),
{
    if s.len() > 0 && is_white(s.last()) {
        trim_end(s.drop_last())
    } else {
        s
    }
}

/// `s` without leading and trailing whitespace.
pub open spec fn trim(s: Seq<char>) -> Seq<char> {
    trim_end(trim_start(s))
}

/// The pieces of `s` between occurrences of `sep`; always at least one piece.
pub open spec fn split_on(s: Seq<char>, sep: char) -> Seq<Seq<char>>
    decreases s.len(),
{
    if s.len() == 0 {
        seq![Seq::<char>::empty()]
    } else {
        let pre = split_on(s.drop_last(), sep);
        if s.last() == sep {
            pre.push(Seq::<char>::empty())
        } else {
            pre.update(pre.len() - 1, pre.last().push(s.last()))
        }
    }
}

pub proof fn lemma_split_on_nonempty(s: Seq<char>, sep: char)
    ensures
        split_on(s, sep).len() >= 1,
    decreases s.len(),
{
    if s.len() > 0 {
        lemma_split_on_nonempty(s.drop_last(), sep);
    }
}

pub open spec fn is_digit(c: char) -> bool {
    '0' <= c && c <= '9'
}

pub open spec fn all_digits(s: Seq<char>) -> bool {
    s.len() > 0 && forall|i: int| 0 <= i < s.len() ==> is_digit(#[trigger] s[i])
}

/// The value of a run of decimal digits.
pub open spec fn digits_value(s: Seq<char>) -> nat
    decreases s.len(),
{
    if s.len() == 0 {
        0
    } else {
        digits_value(s.drop_last()) * 10 + ((s.last() as nat) - ('0' as nat)) as nat
    }
}

/// The integer written by `s`: an optional sign followed by one or more digits.
pub open spec fn decimal_value(s: Seq<char>) -> Option<int> {
    if s.len() > 0 && s[0] == '-' && all_digits(s.drop_first()) {
        Some(-digits_value(s.drop_first()))
    } else if s.len() > 0 && s[0] == '+' && all_digits(s.drop_first()) {
        Some(digits_value(s.drop_first()) as int)
    } else if all_digits(s) {
        Some(digits_value(s) as int)
    } else {
        None
    }
}

/// What `i32::from_str` yields: the written integer when it fits in an `i32`.
pub open spec fn parse_i32_spec(s: Seq<char>) -> Option<i32> {
    match decimal_value(s) {
        Some(v) => if i32::MIN <= v && v <= i32::MAX {
            Some(v as i32)
        } else {
            None
        },
        None => None,
    }
}

/// The decimal digits of `n`, most significant first, without leading zeros.
pub open spec fn digits_text(n: nat) -> Seq<char>
    decreases n,
{
    let d = (('0' as nat) + n % 10) as char;
    if n < 10 {
        seq![d]
    } else {
        digits_text(n / 10).push(d)
    }
}

/// The decimal text of `n`, with a leading `-` when it is negative.
pub open spec fn decimal_text(n: int) -> Seq<char> {
    if n < 0 {
        seq!['-'] + digits_text((-n) as nat)
    } else {
        digits_text(n as nat)
    }
}


/// `s` holds no `c`.
pub open spec fn lacks(s: Seq<char>, c: char) -> bool {
    forall|k: int| 0 <= k < s.len() ==> s[k] != c
}

pub proof fn lemma_split_without_sep(s: Seq<char>, sep: char)
    requires
        lacks(s, sep),
    ensures
        split_on(s, sep) == seq![s],
    decreases s.len(),
{
    if s.len() > 0 {
        assert(lacks(s.drop_last(), sep)) by {
            assert forall|k: int| 0 <= k < s.len() - 1 implies s.drop_last()[k] != sep by {
                assert(s.drop_last()[k] == s[k]);
            }
        }
        lemma_split_without_sep(s.drop_last(), sep);
        assert(s[s.len() - 1] != sep);
        assert(s.drop_last().push(s.last()) =~= s);
        assert(split_on(s, sep) =~= seq![s]);
    } else {
        assert(s =~= Seq::<char>::empty());
    }
}

pub proof fn lemma_split_append(x: Seq<char>, y: Seq<char>, sep: char)
    requires
        lacks(y, sep),
    ensures
        split_on(x + y, sep) == split_on(x, sep).update(
            split_on(x, sep).len() - 1,
            split_on(x, sep).last() + y,
        ),
    decreases y.len(),
{
    lemma_split_on_nonempty(x, sep);
    if y.len() == 0 {
        assert(x + y =~= x);
        assert(split_on(x, sep).last() + y =~= split_on(x, sep).last());
        assert(split_on(x, sep).update(split_on(x, sep).len() - 1, split_on(x, sep).last())
            =~= split_on(x, sep));
    } else {
        lemma_split_append(x, y.drop_last(), sep);
        assert((x + y).drop_last() =~= x + y.drop_last());
        assert((x + y).last() == y.last());
        assert((split_on(x, sep).last() + y.drop_last()).push(y.last()) =~= split_on(x, sep).last()
            + y);
        assert(split_on(x + y, sep) =~= split_on(x, sep).update(
            split_on(x, sep).len() - 1,
            split_on(x, sep).last() + y,
        ));
    }
}

/// The pieces of `x`, the separator and `y`, where `y` holds no separator.
pub proof fn lemma_split_joined(x: Seq<char>, y: Seq<char>, sep: char)
    requires
        lacks(y, sep),
    ensures
        split_on(x.push(sep) + y, sep) == split_on(x, sep).push(y),
{
    assert(x.push(sep).drop_last() =~= x);
    lemma_split_append(x.push(sep), y, sep);
    assert(Seq::<char>::empty() + y =~= y);
    assert(split_on(x.push(sep), sep).update(split_on(x.push(sep), sep).len() - 1, y)
        =~= split_on(x, sep).push(y));
}

/// How many whitespace characters `s` starts with.
pub open spec fn lead(s: Seq<char>) -> nat
    decreases s.len(),
{
    if s.len() > 0 && is_white(s[0]) {
        1 + lead(s.drop_first())
    } else {
        0
    }
}

/// How many whitespace characters `s` ends with.
pub open spec fn trail(s: Seq<char>) -> nat
    decreases s.len(),
{
    if s.len() > 0 && is_white(s.last()) {
        1 + trail(s.drop_last())
    } else {
        0
    }
}

pub proof fn lemma_lead(s: Seq<char>)
    ensures
        lead(s) <= s.len(),
        forall|k: int| 0 <= k < lead(s) ==> is_white(#[trigger] s[k]),
        lead(s) == s.len() || !is_white(s[lead(s) as int]),
        trim_start(s) == s.subrange(lead(s) as int, s.len() as int),
    decreases s.len(),
{
    if s.len() > 0 && is_white(s[0]) {
        lemma_lead(s.drop_first());
        assert forall|k: int| 0 <= k < lead(s) implies is_white(#[trigger] s[k]) by {
            if k > 0 {
                assert(s[k] == s.drop_first()[k - 1]);
            }
        }
        assert(s.drop_first().subrange(lead(s.drop_first()) as int, s.len() - 1) =~= s.subrange(
            lead(s) as int,
            s.len() as int,
        ));
    } else {
        assert(s.subrange(0, s.len() as int) =~= s);
    }
}

pub proof fn lemma_trail(s: Seq<char>)
    ensures
        trail(s) <= s.len(),
        forall|k: int| s.len() - trail(s) <= k < s.len() ==> is_white(#[trigger] s[k]),
        trail(s) == s.len() || !is_white(s[s.len() - trail(s) - 1]),
        trim_end(s) == s.subrange(0, s.len() - trail(s)),
    decreases s.len(),
{
    if s.len() > 0 && is_white(s.last()) {
        lemma_trail(s.drop_last());
        assert forall|k: int| s.len() - trail(s) <= k < s.len() implies is_white(#[trigger] s[k]) by {
            if k < s.len() - 1 {
                assert(s[k] == s.drop_last()[k]);
            }
        }
        assert(s.drop_last().subrange(0, s.len() - 1 - trail(s.drop_last())) =~= s.subrange(
            0,
            s.len() - trail(s),
        ));
    } else {
        assert(s.subrange(0, s.len() as int) =~= s);
    }
}

/// Trimming at the start of `y` where `y[0..i]` is white space and `y[i]` is not.
pub proof fn lemma_trim_start_at(y: Seq<char>, i: int)
    requires
        0 <= i <= y.len(),
        forall|k: int| 0 <= k < i ==> is_white(#[trigger] y[k]),
        i == y.len() || !is_white(y[i]),
    ensures
        trim_start(y) == y.subrange(i, y.len() as int),
{
    lemma_lead(y);
    if lead(y) < i {
        assert(is_white(y[lead(y) as int]));
    }
    if lead(y) > i {
        assert(is_white(y[i]));
    }
}

/// Trimming at the end of `y` where `y[j..]` is white space and `y[j - 1]` is not.
pub proof fn lemma_trim_end_at(y: Seq<char>, j: int)
    requires
        0 <= j <= y.len(),
        forall|k: int| j <= k < y.len() ==> is_white(#[trigger] y[k]),
        j == 0 || !is_white(y[j - 1]),
    ensures
        trim_end(y) == y.subrange(0, j),
{
    lemma_trail(y);
    let e = y.len() - trail(y);
    if e > j {
        assert(is_white(y[e - 1]));
    }
    if e < j {
        assert(is_white(y[j - 1]));
    }
}

/// Trimming the two ends in either order gives the same text.
pub proof fn lemma_trim_commutes(s: Seq<char>)
    ensures
        trim(s) == trim_start(trim_end(s)),
{
    lemma_lead(s);
    lemma_trail(s);
    let n = s.len() as int;
    let i = lead(s) as int;
    let j = n - trail(s);
    if i == n {
        lemma_trim_end_at(s, 0);
        assert(s.subrange(i, n) =~= Seq::<char>::empty());
        assert(s.subrange(0, 0) =~= Seq::<char>::empty());
    } else {
        if j <= i {
            assert(is_white(s[i]));
        }
        let y = s.subrange(i, n);
        lemma_trim_end_at(y, j - i);
        assert(y.subrange(0, j - i) =~= s.subrange(i, j));
        let z = s.subrange(0, j);
        lemma_trim_start_at(z, i);
        assert(z.subrange(i, j) =~= s.subrange(i, j));
    }
}

/// Trimming twice is trimming once.
pub proof fn lemma_trim_idempotent(s: Seq<char>)
    ensures
        trim(trim(s)) == trim(s),
        trim(trim_start(s)) == trim(s),
        trim(trim_end(s)) == trim(s),
{
    lemma_lead(s);
    lemma_trail(s);
    let t = trim(s);
    let u = trim_start(s);
    let v = trim_end(s);
    lemma_trim_start_at(u, 0);
    assert(u.subrange(0, u.len() as int) =~= u);
    lemma_trim_end_at(v, v.len() as int);
    assert(v.subrange(0, v.len() as int) =~= v);
    lemma_trim_commutes(s);
    lemma_trim_commutes(v);
    lemma_lead(t);
    lemma_trail(t);
    if t.len() > 0 {
        lemma_trim_commutes(u);
        lemma_trim_end_at(trim_start(trim_end(s)), t.len() as int);
    }
    lemma_trim_start_at(t, 0);
    assert(t.subrange(0, t.len() as int) =~= t);
}

/// Leading white space of `x + r` is that of `x` when `r` starts with a
/// non-white character.
pub proof fn lemma_trim_start_append(x: Seq<char>, r: Seq<char>)
    requires
        r.len() > 0,
        !is_white(r[0]),
    ensures
        trim_start(x + r) == trim_start(x) + r,
{
    lemma_lead(x);
    let y = x + r;
    let i = lead(x) as int;
    assert forall|k: int| 0 <= k < i implies is_white(#[trigger] y[k]) by {
        assert(y[k] == x[k]);
    }
    lemma_trim_start_at(y, i);
    assert(y.subrange(i, y.len() as int) =~= x.subrange(i, x.len() as int) + r);
}

/// Trailing white space of `l + y` is that of `y` when `l` ends with a
/// non-white character.
pub proof fn lemma_trim_end_prepend(l: Seq<char>, y: Seq<char>)
    requires
        l.len() > 0,
        !is_white(l.last()),
    ensures
        trim_end(l + y) == l + trim_end(y),
{
    lemma_trail(y);
    let z = l + y;
    let j = l.len() + y.len() - trail(y);
    assert forall|k: int| j <= k < z.len() implies is_white(#[trigger] z[k]) by {
        assert(z[k] == y[k - l.len()]);
    }
    if y.len() - trail(y) > 0 {
        assert(z[j - 1] == y[y.len() - trail(y) - 1]);
    } else {
        assert(z[j - 1] == l.last());
    }
    lemma_trim_end_at(z, j);
    assert(z.subrange(0, j) =~= l + y.subrange(0, y.len() - trail(y)));
}

/// Trimming keeps a text free of `c`.
pub proof fn lemma_trim_lacks(s: Seq<char>, c: char)
    requires
        lacks(s, c),
    ensures
        lacks(trim_start(s), c),
        lacks(trim_end(s), c),
{
    lemma_lead(s);
    lemma_trail(s);
    let u = trim_start(s);
    assert forall|k: int| 0 <= k < u.len() implies u[k] != c by {
        assert(u[k] == s[k + lead(s)]);
    }
    let v = trim_end(s);
    assert forall|k: int| 0 <= k < v.len() implies v[k] != c by {
        assert(v[k] == s[k]);
    }
}

/// What `str::to_lowercase` makes of `s`: full Unicode lower-case mapping.
pub uninterp spec fn lower_of(s: Seq<char>) -> Seq<char>;

/// Relies on `str::to_lowercase`: the result depends on the characters alone.
#[verifier::external_body]
pub(crate) fn lowercase(s: &str) -> (r: String)
    ensures
        r@ == lower_of(s@),
{
    s.to_lowercase()
}

/// Relies on `str::chars`: the characters of `s`, in order.
#[verifier::external_body]
pub(crate) fn chars_of(s: &str) -> (r: Vec<char>)
    ensures
        r@ == s@,
{
    s.chars().collect()
}

/// Relies on `FromIterator<&char>` for `String`: the string of the given characters.
#[verifier::external_body]
pub(crate) fn string_of(v: &Vec<char>) -> (r: String)
    ensures
        r@ == v@,
{
    v.iter().collect()
}

/// Relies on `i32::from_str`: an optional sign and decimal digits, in range.
#[verifier::external_body]
pub(crate) fn parse_i32(s: &str) -> (r: Option<i32>)
    ensures
        r == parse_i32_spec(s@),
{
    s.parse::<i32>().ok()
}

/// Relies on `i32`'s `Display` through `ToString`: plain decimal text.
#[verifier::external_body]
pub(crate) fn i32_text(n: i32) -> (r: String)
    ensures
        r@ == decimal_text(n as int),
{
    n.to_string()
}

/// Whether `c` is white space, as `char::is_whitespace` decides.
pub fn is_whitespace_char(c: char) -> (r: bool)
    ensures
        r == is_white(c),
{
    ('\u{9}' <= c && c <= '\u{D}') || c == ' ' || c == '\u{85}' || c == '\u{A0}' || c == '\u{1680}'
        || ('\u{2000}' <= c && c <= '\u{200A}') || c == '\u{2028}' || c == '\u{2029}'
        || c == '\u{202F}' || c == '\u{205F}' || c == '\u{3000}'
}

/// `s` with leading and trailing whitespace removed.
pub fn trim_chars(s: &Vec<char>) -> (r: Vec<char>)
    ensures
        r@ == trim(s@),
{
    let n = s.len();
    let mut i: usize = 0;
    assert(s@.subrange(0, n as int) =~= s@);
    while i < n && is_whitespace_char(s[i])
        invariant
            i <= n,
            n == s@.len(),
            trim_start(s@) == trim_start(s@.subrange(i as int, n as int)),
        decreases n - i,
    {
        assert(s@.subrange(i as int, n as int).drop_first() =~= s@.subrange(i + 1, n as int));
        i = i + 1;
    }
    assert(trim_start(s@.subrange(i as int, n as int)) == s@.subrange(i as int, n as int));
    let mut j: usize = n;
    while j > i && is_whitespace_char(s[j - 1])
        invariant
            i <= j <= n,
            n == s@.len(),
            trim(s@) == trim_end(s@.subrange(i as int, j as int)),
        decreases j,
    {
        assert(s@.subrange(i as int, j as int).drop_last() =~= s@.subrange(i as int, j - 1));
        j = j - 1;
    }
    let mut r: Vec<char> = Vec::new();
    let mut k: usize = i;
    while k < j
        invariant
            i <= k <= j <= n,
            n == s@.len(),
            r@ =~= s@.subrange(i as int, k as int),
        decreases j - k,
    {
        r.push(s[k]);
        k = k + 1;
    }
    r
}

/// The pieces of `s` between occurrences of `sep`.
pub fn split_chars(s: &Vec<char>, sep: char) -> (r: Vec<Vec<char>>)
    ensures
        r@.len() == split_on(s@, sep).len(),
        forall|k: int| 0 <= k < r@.len() ==> (#[trigger] r@[k])@ == split_on(s@, sep)[k],
{
    let mut done: Vec<Vec<char>> = Vec::new();
    let mut cur: Vec<char> = Vec::new();
    let mut i: usize = 0;
    assert(s@.subrange(0, 0) =~= Seq::<char>::empty());
    while i < s.len()
        invariant
            i <= s@.len(),
            split_on(s@.subrange(0, i as int), sep).len() == done@.len() + 1,
            forall|k: int|
                0 <= k < done@.len() ==> (#[trigger] done@[k])@ == split_on(
                    s@.subrange(0, i as int),
                    sep,
                )[k],
            cur@ == split_on(s@.subrange(0, i as int), sep).last(),
        decreases s@.len() - i,
    {
        let ghost pre = s@.subrange(0, i as int);
        assert(s@.subrange(0, i + 1).drop_last() =~= pre);
        assert(s@.subrange(0, i + 1).last() == s@[i as int]);
        if s[i] == sep {
            done.push(cur);
            cur = Vec::new();
        } else {
            cur.push(s[i]);
        }
        i = i + 1;
    }
    assert(s@.subrange(0, s@.len() as int) =~= s@);
    done.push(cur);
    done
}

} // verus!
