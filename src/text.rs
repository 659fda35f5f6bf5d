use vstd::prelude::*;

verus! {

/// The fields of `s` between occurrences of `c`, as `str::split(c)` yields them:
/// always at least one field, and empty fields are kept.
pub open spec fn split_on(s: Seq<char>, c: char) -> Seq<Seq<char>>
    decreases s.len(),
{
    if s.len() == 0 {
        seq![Seq::<char>::empty()]
    } else {
        let rest = split_on(s.drop_last(), c);
        if s.last() == c {
            rest.push(Seq::<char>::empty())
        } else {
            rest.update(rest.len() - 1, rest.last().push(s.last()))
        }
    }
}

pub open spec fn is_digit(c: char) -> bool {
    '0' <= c && c <= '9'
}

pub open spec fn digits_value(s: Seq<char>) -> int
    decreases s.len(),
{
    if s.len() == 0 {
        0
    } else {
        digits_value(s.drop_last()) * 10 + (s.last() as int - '0' as int)
    }
}

/// A version component: a non-empty run of decimal digits whose value fits in `i32`.
pub open spec fn parse_component(s: Seq<char>) -> Option<i32> {
    if s.len() > 0 && (forall|i: int| 0 <= i < s.len() ==> is_digit(#[trigger] s[i]))
        && digits_value(s) <= i32::MAX {
        Some(digits_value(s) as i32)
    } else {
        None
    }
}

/// ASCII letters compare without regard to case; every other character only to itself.
pub open spec fn same_ignoring_case(a: char, b: char) -> bool {
    a == b || ('A' <= a && a <= 'Z' && b as int == a as int + 32) || ('A' <= b && b <= 'Z'
        && a as int == b as int + 32)
}

/// `needle` occurs in `hay` starting at position `i`, letters compared without case.
pub open spec fn occurs_at(hay: Seq<char>, needle: Seq<char>, i: int) -> bool {
    0 <= i && i + needle.len() <= hay.len() && forall|k: int|
        0 <= k < needle.len() ==> same_ignoring_case(#[trigger] hay[i + k], needle[k])
}

/// `needle` is a substring of `hay`, ASCII letters compared without case.
pub open spec fn contains_ignoring_case(hay: Seq<char>, needle: Seq<char>) -> bool {
    exists|i: int| occurs_at(hay, needle, i)
}

proof fn lemma_digits_value_nonneg(s: Seq<char>)
    requires
        forall|i: int| 0 <= i < s.len() ==> is_digit(#[trigger] s[i]),
    ensures
        digits_value(s) >= 0,
    decreases s.len(),
{
    if s.len() > 0 {
        lemma_digits_value_nonneg(s.drop_last());
    }
}

/// The value of a digit run never falls below that of its prefixes.
proof fn lemma_digits_value_prefix(s: Seq<char>, k: int)
    requires
        0 <= k <= s.len(),
        forall|i: int| 0 <= i < s.len() ==> is_digit(#[trigger] s[i]),
    ensures
        digits_value(s.take(k)) <= digits_value(s),
    decreases s.len(),
{
    if k < s.len() {
        assert(s.drop_last().take(k) =~= s.take(k));
        lemma_digits_value_prefix(s.drop_last(), k);
        lemma_digits_value_nonneg(s.drop_last());
    } else {
        assert(s.take(k) =~= s);
    }
}

/// `needle` occurs in `hay` starting at position `i`, character for character.
pub open spec fn occurs_exactly_at(hay: Seq<char>, needle: Seq<char>, i: int) -> bool {
    0 <= i && i + needle.len() <= hay.len() && hay.subrange(i, i + needle.len()) == needle
}

/// `needle` is a substring of `hay`.
pub open spec fn contains_text(hay: Seq<char>, needle: Seq<char>) -> bool {
    exists|i: int| occurs_exactly_at(hay, needle, i)
}

/// `s` with every occurrence of `from` replaced by `to`, scanning from the left
/// and never overlapping, as `str::replace` does.
pub open spec fn replace_all(s: Seq<char>, from: Seq<char>, to: Seq<char>) -> Seq<char>
    recommends
        from.len() > 0,
    decreases s.len(),
{
    if s.len() == 0 || from.len() == 0 {
        s
    } else if from.len() <= s.len() && s.take(from.len() as int) == from {
        to + replace_all(s.skip(from.len() as int), from, to)
    } else {
        seq![s[0]] + replace_all(s.drop_first(), from, to)
    }
}

/// The decimal digit `d`.
pub open spec fn digit_of(d: int) -> char {
    if d == 0 {
        '0'
    } else if d == 1 {
        '1'
    } else if d == 2 {
        '2'
    } else if d == 3 {
        '3'
    } else if d == 4 {
        '4'
    } else if d == 5 {
        '5'
    } else if d == 6 {
        '6'
    } else if d == 7 {
        '7'
    } else if d == 8 {
        '8'
    } else {
        '9'
    }
}

/// The decimal digits of `n`, without leading zeros.
pub open spec fn digits_of(n: nat) -> Seq<char>
    decreases n,
{
    if n < 10 {
        seq![digit_of(n as int)]
    } else {
        digits_of(n / 10).push(digit_of((n % 10) as int))
    }
}

/// `n` written in decimal, with a `-` where it is negative.
pub open spec fn decimal(n: int) -> Seq<char> {
    if n < 0 {
        seq!['-'] + digits_of((-n) as nat)
    } else {
        digits_of(n as nat)
    }
}

fn digit_char(d: u64) -> (c: char)
    requires
        d < 10,
    ensures
        c == digit_of(d as int),
{
    if d == 0 {
        '0'
    } else if d == 1 {
        '1'
    } else if d == 2 {
        '2'
    } else if d == 3 {
        '3'
    } else if d == 4 {
        '4'
    } else if d == 5 {
        '5'
    } else if d == 6 {
        '6'
    } else if d == 7 {
        '7'
    } else if d == 8 {
        '8'
    } else {
        '9'
    }
}

/// `n` written in decimal.
pub fn decimal_chars(n: i32) -> (r: Vec<char>)
    ensures
        r@ == decimal(n as int),
{
    let negative = n < 0;
    let start: u64 = if negative {
        (-(n as i64)) as u64
    } else {
        n as u64
    };
    let mut v: u64 = start / 10;
    let mut out: Vec<char> = vec![digit_char(start % 10)];
    assert(out@ == seq![digit_of((start % 10) as int)]);
    while v > 0
        invariant
            digits_of(start as nat) == (if v == 0 {
                Seq::<char>::empty()
            } else {
                digits_of(v as nat)
            }) + out@,
        decreases v,
    {
        let ghost before = out@;
        out.insert(0, digit_char(v % 10));
        assert(out@ =~= seq![digit_of((v % 10) as int)] + before);
        if v < 10 {
            assert(digits_of(v as nat) == seq![digit_of(v as int)]);
            assert(v % 10 == v);
            assert(v / 10 == 0);
            assert(digits_of(start as nat) =~= Seq::<char>::empty() + out@);
        } else {
            assert(digits_of(v as nat) == digits_of((v / 10) as nat).push(digit_of((v % 10) as int)));
            assert(digits_of(start as nat) =~= digits_of((v / 10) as nat) + out@);
        }
        v = v / 10;
    }
    assert(digits_of(start as nat) =~= out@);
    if negative {
        let mut r = vec!['-'];
        r.append(&mut out);
        r
    } else {
        out
    }
}

/// Whether `needle` occurs in `hay` at position `i`.
fn matches_at(hay: &Vec<char>, needle: &Vec<char>, i: usize) -> (r: bool)
    requires
        i <= hay@.len(),
    ensures
        r == occurs_exactly_at(hay@, needle@, i as int),
{
    let n = hay.len();
    if needle.len() > n - i {
        return false;
    }
    let mut k: usize = 0;
    while k < needle.len()
        invariant
            n == hay@.len(),
            i + needle@.len() <= hay@.len(),
            k <= needle@.len(),
            forall|q: int| 0 <= q < k ==> hay@[i + q] == needle@[q],
        decreases needle@.len() - k,
    {
        if hay[i + k] != needle[k] {
            assert(hay@.subrange(i as int, i + needle@.len())[k as int] != needle@[k as int]);
            return false;
        }
        k = k + 1;
    }
    assert(hay@.subrange(i as int, i + needle@.len()) =~= needle@);
    true
}

/// Whether `needle` is a substring of `hay`.
pub fn has_text(hay: &Vec<char>, needle: &Vec<char>) -> (r: bool)
    ensures
        r == contains_text(hay@, needle@),
{
    let mut i: usize = 0;
    while i < hay.len()
        invariant
            i <= hay@.len(),
            forall|j: int| 0 <= j < i ==> !occurs_exactly_at(hay@, needle@, j),
        decreases hay@.len() - i,
    {
        if matches_at(hay, needle, i) {
            return true;
        }
        i = i + 1;
    }
    matches_at(hay, needle, i)
}

/// `s` with every occurrence of the non-empty `from` replaced by `to`.
pub fn replace_text(s: &Vec<char>, from: &Vec<char>, to: &Vec<char>) -> (r: Vec<char>)
    requires
        from@.len() > 0,
    ensures
        r@ == replace_all(s@, from@, to@),
{
    let mut out: Vec<char> = Vec::new();
    let mut i: usize = 0;
    assert(s@.skip(0) =~= s@);
    while i < s.len()
        invariant
            from@.len() > 0,
            i <= s@.len(),
            out@ + replace_all(s@.skip(i as int), from@, to@) == replace_all(s@, from@, to@),
        decreases s@.len() - i,
    {
        let ghost rest = s@.skip(i as int);
        let ghost before = out@;
        if matches_at(s, from, i) {
            assert(rest.take(from@.len() as int) =~= s@.subrange(i as int, i + from@.len()));
            assert(rest.skip(from@.len() as int) =~= s@.skip(i + from@.len()));
            let mut piece = to.clone();
            out.append(&mut piece);
            i = i + from.len();
            assert(out@ + replace_all(s@.skip(i as int), from@, to@) =~= before + (to@
                + replace_all(rest.skip(from@.len() as int), from@, to@)));
        } else {
            proof {
                if from@.len() <= rest.len() {
                    assert(rest.take(from@.len() as int) =~= s@.subrange(i as int, i + from@.len()));
                }
            }
            assert(rest.drop_first() =~= s@.skip(i + 1));
            out.push(s[i]);
            i = i + 1;
            assert(out@ + replace_all(s@.skip(i as int), from@, to@) =~= before + (seq![rest[0]]
                + replace_all(rest.drop_first(), from@, to@)));
        }
    }
    assert(s@.skip(i as int) =~= Seq::<char>::empty());
    assert(out@ + Seq::<char>::empty() =~= out@);
    out
}

/// The characters of `s`, one by one.
pub fn chars_of(s: &str) -> (r: Vec<char>)
    ensures
        r@ == s@,
{
    let n = s.unicode_len();
    let mut r: Vec<char> = Vec::new();
    let mut i: usize = 0;
    while i < n
        invariant
            n == s@.len(),
            i <= n,
            r@ == s@.take(i as int),
        decreases n - i,
    {
        r.push(s.get_char(i));
        i = i + 1;
        assert(r@ =~= s@.take(i as int));
    }
    assert(r@ =~= s@);
    r
}

/// Whether two character sequences are equal.
pub fn same_chars(a: &Vec<char>, b: &Vec<char>) -> (r: bool)
    ensures
        r == (a@ == b@),
{
    if a.len() != b.len() {
        return false;
    }
    let mut i: usize = 0;
    while i < a.len()
        invariant
            a@.len() == b@.len(),
            i <= a@.len(),
            forall|k: int| 0 <= k < i ==> a@[k] == b@[k],
        decreases a@.len() - i,
    {
        if a[i] != b[i] {
            return false;
        }
        i = i + 1;
    }
    assert(a@ =~= b@);
    true
}

/// Whether `s` holds `c` somewhere.
pub fn has_char(s: &Vec<char>, c: char) -> (r: bool)
    ensures
        r == s@.contains(c),
{
    let mut i: usize = 0;
    while i < s.len()
        invariant
            i <= s@.len(),
            forall|k: int| 0 <= k < i ==> s@[k] != c,
        decreases s@.len() - i,
    {
        if s[i] == c {
            return true;
        }
        i = i + 1;
    }
    false
}

/// Each field's own view is the field of the deep view.
pub proof fn fields_view(f: &Vec<Vec<char>>)
    ensures
        forall|i: int| 0 <= i < f@.len() ==> #[trigger] f@[i]@ == f.deep_view()[i],
{
    assert forall|i: int| 0 <= i < f@.len() implies #[trigger] f@[i]@ == f.deep_view()[i] by {
        assert(f@[i]@ =~= f@[i].deep_view());
    }
}

/// The fields of `s` between occurrences of `c`.
pub fn split_chars(s: &Vec<char>, c: char) -> (r: Vec<Vec<char>>)
    ensures
        r.deep_view() == split_on(s@, c),
{
    let mut done: Vec<Vec<char>> = Vec::new();
    let mut cur: Vec<char> = Vec::new();
    let mut i: usize = 0;
    while i < s.len()
        invariant
            i <= s@.len(),
            done.deep_view().push(cur@) == split_on(s@.take(i as int), c),
        decreases s@.len() - i,
    {
        let ghost before = done.deep_view().push(cur@);
        assert(s@.take(i as int + 1).drop_last() =~= s@.take(i as int));
        if s[i] == c {
            let ghost dv = done.deep_view();
            let ghost cv = cur@;
            assert(cur.deep_view() =~= cv);
            done.push(cur);
            assert(done.deep_view() =~= dv.push(cv));
            cur = Vec::new();
            assert(done.deep_view().push(cur@) =~= before.push(Seq::<char>::empty()));
        } else {
            cur.push(s[i]);
            assert(done.deep_view().push(cur@) =~= before.update(
                before.len() - 1,
                before.last().push(s@[i as int]),
            ));
        }
        i = i + 1;
    }
    assert(s@.take(s@.len() as int) =~= s@);
    let ghost dv = done.deep_view();
    let ghost cv = cur@;
    assert(cur.deep_view() =~= cv);
    done.push(cur);
    assert(done.deep_view() =~= dv.push(cv));
    done
}

/// Reads a version component: decimal digits only, at least one, value within `i32`.
pub fn parse_number(s: &Vec<char>) -> (r: Option<i32>)
    ensures
        r == parse_component(s@),
{
    if s.len() == 0 {
        return None;
    }
    let mut v: i64 = 0;
    let mut i: usize = 0;
    while i < s.len()
        invariant
            i <= s@.len(),
            forall|k: int| 0 <= k < i ==> is_digit(#[trigger] s@[k]),
            v == digits_value(s@.take(i as int)),
            0 <= v <= i32::MAX,
        decreases s@.len() - i,
    {
        let d = s[i];
        if !('0' <= d && d <= '9') {
            assert(!is_digit(s@[i as int]));
            return None;
        }
        assert(s@.take(i as int + 1).drop_last() =~= s@.take(i as int));
        v = v * 10 + (d as i64 - '0' as i64);
        i = i + 1;
        if v > i32::MAX as i64 {
            proof {
                if forall|k: int| 0 <= k < s@.len() ==> is_digit(#[trigger] s@[k]) {
                    lemma_digits_value_prefix(s@, i as int);
                }
            }
            return None;
        }
    }
    assert(s@.take(s@.len() as int) =~= s@);
    Some(v as i32)
}

} // verus!
