//! Reading text the way the standard library cuts it up: into lines, into
//! fields between separators, into whitespace separated words, and reading
//! decimal numbers.
//!
//! The specifications work on `Seq<char>`; the executable functions work on
//! `Vec<char>` and are proved against them.

use vstd::prelude::*;

verus! {

// ---------------------------------------------------------------- strings

/// The characters of `s`, in order.
pub fn chars_of(s: &str) -> (v: Vec<char>)
    ensures
        v@ == s@,
{
    let mut v: Vec<char> = Vec::new();
    for c in it: s.chars()
        invariant
            v@ == it.seq().take(it.index() as int),
            it.seq() == s@,
    {
        v.push(c);
    }
    v
}

/// `String::push`: the string with `c` added at its end.
#[verifier::external_body]
pub fn push_char(s: &mut String, c: char)
    ensures
        final(s)@ == old(s)@.push(c),
{
    s.push(c);
}

/// The string made of the characters of `v`.
pub fn string_of(v: &Vec<char>) -> (s: String)
    ensures
        s@ == v@,
{
    let mut s = String::new();
    let n = v.len();
    for i in 0..n
        invariant
            n == v@.len(),
            s@ == v@.take(i as int),
    {
        push_char(&mut s, v[i]);
        assert(v@.take(i + 1) == v@.take(i as int).push(v@[i as int]));
    }
    assert(v@.take(n as int) == v@);
    s
}

/// The views of a sequence of character vectors.
pub open spec fn views(vs: Seq<Vec<char>>) -> Seq<Seq<char>> {
    vs.map_values(|v: Vec<char>| v@)
}

pub proof fn lemma_views_push(vs: Seq<Vec<char>>, v: Vec<char>)
    ensures
        views(vs.push(v)) == views(vs).push(v@),
{
    assert(views(vs.push(v)) =~= views(vs).push(v@));
}

/// The views of a sequence of strings.
pub open spec fn strings(vs: Seq<String>) -> Seq<Seq<char>> {
    vs.map_values(|v: String| v@)
}

pub proof fn lemma_strings_push(vs: Seq<String>, v: String)
    ensures
        strings(vs.push(v)) == strings(vs).push(v@),
{
    assert(strings(vs.push(v)) =~= strings(vs).push(v@));
}

/// A string holding the characters of `s`.
pub fn owned(s: &str) -> (r: String)
    ensures
        r@ == s@,
{
    s.to_owned()
}

/// `s` with the characters of `tail` added at its end.
pub fn push_all(s: &mut String, tail: &str)
    ensures
        final(s)@ == old(s)@ + tail@,
{
    let cs = chars_of(tail);
    let n = cs.len();
    for i in 0..n
        invariant
            n == cs@.len(),
            cs@ == tail@,
            s@ == old(s)@ + cs@.take(i as int),
    {
        push_char(s, cs[i]);
        assert(cs@.take(i + 1) == cs@.take(i as int).push(cs@[i as int]));
    }
    assert(cs@.take(n as int) == cs@);
}

/// The characters of `v` from `from` on.
pub fn tail(v: &Vec<char>, from: usize) -> (t: Vec<char>)
    requires
        from <= v@.len(),
    ensures
        t@ == v@.skip(from as int),
{
    let mut t: Vec<char> = Vec::new();
    let n = v.len();
    for i in from..n
        invariant
            n == v@.len(),
            from <= n,
            t@ == v@.subrange(from as int, i as int),
    {
        t.push(v[i]);
        assert(v@.subrange(from as int, i + 1) == v@.subrange(from as int, i as int).push(
            v@[i as int],
        ));
    }
    t
}

/// Whether `s` begins with `prefix`.
pub open spec fn starts_with(s: Seq<char>, prefix: Seq<char>) -> bool {
    prefix.len() <= s.len() && s.take(prefix.len() as int) == prefix
}

/// Whether `s` ends with `suffix`.
pub open spec fn ends_with(s: Seq<char>, suffix: Seq<char>) -> bool {
    suffix.len() <= s.len() && s.skip(s.len() - suffix.len()) == suffix
}

/// Whether the characters of `v` from `from` on begin with those of `lit`.
pub fn has_prefix_at(v: &Vec<char>, from: usize, lit: &str) -> (b: bool)
    requires
        from <= v@.len(),
    ensures
        b == starts_with(v@.skip(from as int), lit@),
{
    let p = chars_of(lit);
    let n = p.len();
    if n > v.len() - from {
        return false;
    }
    let ghost rest = v@.skip(from as int);
    let mut i: usize = 0;
    while i < n
        invariant
            n == p@.len(),
            p@ == lit@,
            from + n <= v.len(),
            i <= n,
            rest == v@.skip(from as int),
            forall|j: int| 0 <= j < i ==> rest[j] == p@[j],
        decreases n - i,
    {
        if v[from + i] != p[i] {
            assert(rest.take(n as int)[i as int] != p@[i as int]);
            return false;
        }
        i = i + 1;
    }
    assert(rest.take(n as int) =~= p@);
    true
}

/// Whether `v` holds exactly the characters of `lit`.
pub fn equals_lit(v: &Vec<char>, lit: &str) -> (b: bool)
    ensures
        b == (v@ == lit@),
{
    let p = chars_of(lit);
    if p.len() != v.len() {
        return false;
    }
    let n = v.len();
    for i in 0..n
        invariant
            n == v@.len(),
            n == p@.len(),
            p@ == lit@,
            forall|j: int| 0 <= j < i ==> v@[j] == p@[j],
    {
        if v[i] != p[i] {
            return false;
        }
    }
    assert(v@ =~= p@);
    true
}

// ---------------------------------------------------------------- fields

/// The pieces of `s` between the separators `sep`, empty pieces included:
/// what `str::split` with one character gives. There is always at least one.
pub open spec fn split(s: Seq<char>, sep: char) -> Seq<Seq<char>>
    decreases s.len(),
{
    if s.len() == 0 {
        seq![Seq::empty()]
    } else {
        let init = split(s.drop_last(), sep);
        if s.last() == sep {
            init.push(Seq::empty())
        } else {
            init.update(init.len() - 1, init.last().push(s.last()))
        }
    }
}

pub proof fn lemma_split_len(s: Seq<char>, sep: char)
    ensures
        split(s, sep).len() >= 1,
    decreases s.len(),
{
    if s.len() > 0 {
        lemma_split_len(s.drop_last(), sep);
    }
}

/// The piece at `i`, or nothing when there are not that many: what
/// `fields.get(i).copied().unwrap_or_default()` gives.
pub open spec fn field(fields: Seq<Seq<char>>, i: int) -> Seq<char> {
    if 0 <= i < fields.len() {
        fields[i]
    } else {
        Seq::empty()
    }
}

/// `split`, on a vector of characters.
pub fn split_chars(v: &Vec<char>, sep: char) -> (fields: Vec<Vec<char>>)
    ensures
        views(fields@) == split(v@, sep),
{
    let mut fields: Vec<Vec<char>> = Vec::new();
    let mut cur: Vec<char> = Vec::new();
    let n = v.len();
    assert(v@.take(0) =~= Seq::<char>::empty());
    assert(views(fields@).push(cur@) =~= split(v@.take(0), sep));
    for i in 0..n
        invariant
            n == v@.len(),
            views(fields@).push(cur@) == split(v@.take(i as int), sep),
    {
        let c = v[i];
        let ghost before = v@.take(i as int);
        assert(v@.take(i + 1).drop_last() == before);
        assert(v@.take(i + 1).last() == c);
        proof {
            lemma_split_len(before, sep);
        }
        if c == sep {
            let done = cur;
            proof {
                lemma_views_push(fields@, done);
            }
            fields.push(done);
            cur = Vec::new();
            assert(views(fields@).push(cur@) =~= split(v@.take(i + 1), sep));
        } else {
            let ghost old_cur = cur@;
            cur.push(c);
            assert(views(fields@).push(cur@) =~= split(before, sep).update(
                split(before, sep).len() - 1,
                old_cur.push(c),
            ));
        }
    }
    assert(v@.take(n as int) == v@);
    proof {
        lemma_views_push(fields@, cur);
    }
    fields.push(cur);
    fields
}

// ---------------------------------------------------------------- lines

/// A line without the carriage return that ends it, if one does.
pub open spec fn strip_cr(l: Seq<char>) -> Seq<char> {
    if l.len() > 0 && l.last() == '\r' {
        l.drop_last()
    } else {
        l
    }
}

/// `strip_cr` on each of `ls`.
pub open spec fn strip_all(ls: Seq<Seq<char>>) -> Seq<Seq<char>> {
    ls.map_values(|l: Seq<char>| strip_cr(l))
}

/// What `str::lines` gives: the pieces between line feeds, each one that a
/// line feed ends without a carriage return just before it, and the last
/// piece, which no line feed ends, only when it is not empty.
pub open spec fn lines(s: Seq<char>) -> Seq<Seq<char>> {
    let pieces = split(s, '\n');
    let ended = strip_all(pieces.drop_last());
    if pieces.last().len() == 0 {
        ended
    } else {
        ended.push(pieces.last())
    }
}

/// `lines`, on a vector of characters.
pub fn lines_of(v: &Vec<char>) -> (ls: Vec<Vec<char>>)
    ensures
        views(ls@) == lines(v@),
{
    let mut out: Vec<Vec<char>> = Vec::new();
    let mut cur: Vec<char> = Vec::new();
    let n = v.len();
    assert(v@.take(0) =~= Seq::<char>::empty());
    assert(views(out@) =~= strip_all(split(v@.take(0), '\n').drop_last()));
    for i in 0..n
        invariant
            n == v@.len(),
            split(v@.take(i as int), '\n').len() >= 1,
            views(out@) == strip_all(split(v@.take(i as int), '\n').drop_last()),
            cur@ == split(v@.take(i as int), '\n').last(),
    {
        let c = v[i];
        let ghost before = v@.take(i as int);
        let ghost pieces = split(before, '\n');
        assert(v@.take(i + 1).drop_last() == before);
        assert(v@.take(i + 1).last() == c);
        if c == '\n' {
            let mut done = cur;
            let ghost whole = done@;
            if done.len() > 0 && done[done.len() - 1] == '\r' {
                done.pop();
            }
            assert(done@ == strip_cr(whole));
            proof {
                lemma_views_push(out@, done);
            }
            out.push(done);
            cur = Vec::new();
            assert(split(v@.take(i + 1), '\n') == pieces.push(Seq::empty()));
            assert(pieces.push(Seq::<char>::empty()).drop_last() == pieces);
            assert(strip_all(pieces) =~= strip_all(pieces.drop_last()).push(strip_cr(pieces.last())));
        } else {
            cur.push(c);
            let ghost after = split(v@.take(i + 1), '\n');
            assert(after == pieces.update(pieces.len() - 1, pieces.last().push(c)));
            assert(after.drop_last() =~= pieces.drop_last());
        }
    }
    assert(v@.take(n as int) == v@);
    if cur.len() > 0 {
        proof {
            lemma_views_push(out@, cur);
        }
        out.push(cur);
    }
    out
}

// ---------------------------------------------------------------- whitespace

/// `char::is_whitespace`: the characters with the Unicode property
/// White_Space.
pub open spec fn is_whitespace(c: char) -> bool {
    let n = c as u32;
    (9 <= n <= 13) || n == 32 || n == 0x85 || n == 0xA0 || n == 0x1680 || (0x2000 <= n <= 0x200A)
        || n == 0x2028 || n == 0x2029 || n == 0x202F || n == 0x205F || n == 0x3000
}

/// `is_whitespace`, executable.
pub fn whitespace(c: char) -> (b: bool)
    ensures
        b == is_whitespace(c),
{
    let n = c as u32;
    (9 <= n && n <= 13) || n == 32 || n == 0x85 || n == 0xA0 || n == 0x1680 || (0x2000 <= n && n
        <= 0x200A) || n == 0x2028 || n == 0x2029 || n == 0x202F || n == 0x205F || n == 0x3000
}

/// `s` without the whitespace at its start.
pub open spec fn trim_start(s: Seq<char>) -> Seq<char>
    decreases s.len(),
{
    if s.len() > 0 && is_whitespace(s[0]) {
        trim_start(s.drop_first())
    } else {
        s
    }
}

/// `s` without the whitespace at its end.
pub open spec fn trim_end(s: Seq<char>) -> Seq<char>
    decreases s.len(),
{
    if s.len() > 0 && is_whitespace(s.last()) {
        trim_end(s.drop_last())
    } else {
        s
    }
}

/// What `str::trim` gives.
pub open spec fn trim(s: Seq<char>) -> Seq<char> {
    trim_end(trim_start(s))
}

/// `trim`, on a vector of characters.
pub fn trimmed(v: &Vec<char>) -> (t: Vec<char>)
    ensures
        t@ == trim(v@),
{
    let n = v.len();
    let mut start: usize = 0;
    assert(v@.skip(0) == v@);
    while start < n && whitespace(v[start])
        invariant
            n == v@.len(),
            start <= n,
            trim_start(v@) == trim_start(v@.skip(start as int)),
        decreases n - start,
    {
        assert(v@.skip(start as int).drop_first() == v@.skip(start + 1));
        start = start + 1;
    }
    let mut end: usize = n;
    let ghost front = v@.skip(start as int);
    assert(front == v@.subrange(start as int, end as int));
    while end > start && whitespace(v[end - 1])
        invariant
            n == v@.len(),
            start <= end <= n,
            front == v@.skip(start as int),
            trim_end(front) == trim_end(v@.subrange(start as int, end as int)),
        decreases end - start,
    {
        assert(v@.subrange(start as int, end as int).drop_last() == v@.subrange(
            start as int,
            end - 1,
        ));
        end = end - 1;
    }
    let mut t: Vec<char> = Vec::new();
    for i in start..end
        invariant
            n == v@.len(),
            start <= end <= n,
            t@ == v@.subrange(start as int, i as int),
    {
        t.push(v[i]);
        assert(v@.subrange(start as int, i + 1) == v@.subrange(start as int, i as int).push(
            v@[i as int],
        ));
    }
    assert(trim_start(v@) == front);
    t
}

/// The pieces of `s` between whitespace characters, empty ones included.
pub open spec fn split_whitespace_pieces(s: Seq<char>) -> Seq<Seq<char>>
    decreases s.len(),
{
    if s.len() == 0 {
        seq![Seq::empty()]
    } else {
        let init = split_whitespace_pieces(s.drop_last());
        if is_whitespace(s.last()) {
            init.push(Seq::empty())
        } else {
            init.update(init.len() - 1, init.last().push(s.last()))
        }
    }
}

/// `ps` without its empty pieces.
pub open spec fn non_empty(ps: Seq<Seq<char>>) -> Seq<Seq<char>>
    decreases ps.len(),
{
    if ps.len() == 0 {
        ps
    } else if ps.last().len() == 0 {
        non_empty(ps.drop_last())
    } else {
        non_empty(ps.drop_last()).push(ps.last())
    }
}

/// What `str::split_whitespace` gives: the words between whitespace.
pub open spec fn words(s: Seq<char>) -> Seq<Seq<char>> {
    non_empty(split_whitespace_pieces(s))
}

proof fn lemma_non_empty_push(ps: Seq<Seq<char>>, p: Seq<char>)
    ensures
        non_empty(ps.push(p)) == if p.len() == 0 {
            non_empty(ps)
        } else {
            non_empty(ps).push(p)
        },
{
    assert(ps.push(p).drop_last() == ps);
}

/// `words`, on a vector of characters.
pub fn words_of(v: &Vec<char>) -> (ws: Vec<Vec<char>>)
    ensures
        views(ws@) == words(v@),
{
    let mut out: Vec<Vec<char>> = Vec::new();
    let mut cur: Vec<char> = Vec::new();
    let n = v.len();
    assert(v@.take(0) =~= Seq::<char>::empty());
    assert(split_whitespace_pieces(v@.take(0)).drop_last() =~= Seq::<Seq<char>>::empty());
    for i in 0..n
        invariant
            n == v@.len(),
            split_whitespace_pieces(v@.take(i as int)).len() >= 1,
            views(out@) == non_empty(split_whitespace_pieces(v@.take(i as int)).drop_last()),
            cur@ == split_whitespace_pieces(v@.take(i as int)).last(),
    {
        let c = v[i];
        let ghost before = v@.take(i as int);
        let ghost pieces = split_whitespace_pieces(before);
        assert(v@.take(i + 1).drop_last() == before);
        assert(v@.take(i + 1).last() == c);
        if whitespace(c) {
            assert(split_whitespace_pieces(v@.take(i + 1)) == pieces.push(Seq::empty()));
            assert(pieces.push(Seq::<char>::empty()).drop_last() == pieces);
            assert(pieces.drop_last().push(pieces.last()) == pieces);
            proof {
                lemma_non_empty_push(pieces.drop_last(), pieces.last());
            }
            if cur.len() > 0 {
                proof {
                    lemma_views_push(out@, cur);
                }
                out.push(cur);
            }
            cur = Vec::new();
        } else {
            cur.push(c);
            let ghost after = split_whitespace_pieces(v@.take(i + 1));
            assert(after == pieces.update(pieces.len() - 1, pieces.last().push(c)));
            assert(after.drop_last() =~= pieces.drop_last());
        }
    }
    assert(v@.take(n as int) == v@);
    let ghost pieces = split_whitespace_pieces(v@);
    assert(pieces.drop_last().push(pieces.last()) == pieces);
    proof {
        lemma_non_empty_push(pieces.drop_last(), pieces.last());
    }
    if cur.len() > 0 {
        proof {
            lemma_views_push(out@, cur);
        }
        out.push(cur);
    }
    out
}

// ---------------------------------------------------------------- numbers

/// Whether `c` is one of the digits 0 to 9.
pub open spec fn is_digit(c: char) -> bool {
    48 <= (c as u32) <= 57
}

/// The value of the digit `c`.
pub open spec fn digit_value(c: char) -> int {
    (c as u32) - 48
}

/// Whether every character of `s` is a digit.
pub open spec fn all_digits(s: Seq<char>) -> bool {
    forall|i: int| 0 <= i < s.len() ==> is_digit(#[trigger] s[i])
}

/// The number that the digits `s` write in base ten.
pub open spec fn decimal(s: Seq<char>) -> int
    decreases s.len(),
{
    if s.len() == 0 {
        0
    } else {
        decimal(s.drop_last()) * 10 + digit_value(s.last())
    }
}

/// The digits of an unsigned number: what follows a leading `+`, if any.
pub open spec fn unsigned_digits(s: Seq<char>) -> Seq<char> {
    if s.len() > 0 && s[0] == '+' {
        s.drop_first()
    } else {
        s
    }
}

/// What `str::parse::<u32>` gives: an optional `+`, then one digit or more,
/// of a value that fits in 32 bits.
pub open spec fn parse_u32(s: Seq<char>) -> Option<u32> {
    let d = unsigned_digits(s);
    if d.len() > 0 && all_digits(d) && decimal(d) <= u32::MAX {
        Some(decimal(d) as u32)
    } else {
        None
    }
}

proof fn lemma_decimal_grows(s: Seq<char>, i: int, j: int)
    requires
        all_digits(s),
        0 <= i <= j <= s.len(),
    ensures
        0 <= decimal(s.take(i)) <= decimal(s.take(j)),
    decreases j,
{
    if j > 0 {
        assert(s.take(j).drop_last() == s.take(j - 1));
        assert(s.take(j).last() == s[j - 1]);
        assert(is_digit(s[j - 1]));
        if i < j {
            lemma_decimal_grows(s, i, j - 1);
        } else {
            lemma_decimal_grows(s, j - 1, j - 1);
        }
    } else {
        assert(s.take(0) =~= Seq::<char>::empty());
    }
}

/// `parse_u32`, on a vector of characters.
pub fn parse_u32_of(v: &Vec<char>) -> (r: Option<u32>)
    ensures
        r == parse_u32(v@),
{
    let n = v.len();
    let start: usize = if n > 0 && v[0] == '+' {
        1
    } else {
        0
    };
    let ghost d = unsigned_digits(v@);
    assert(d == v@.skip(start as int));
    if start == n {
        return None;
    }
    let mut value: u64 = 0;
    let mut i: usize = start;
    while i < n
        invariant
            n == v@.len(),
            start < n,
            start <= i <= n,
            d == v@.skip(start as int),
            d == unsigned_digits(v@),
            all_digits(d.take(i - start)),
            value == decimal(d.take(i - start)),
            value <= u32::MAX,
        decreases n - i,
    {
        let c = v[i];
        let k = c as u32;
        assert(d.take(i + 1 - start).drop_last() == d.take(i - start));
        assert(d.take(i + 1 - start).last() == c);
        assert(d[i - start] == c);
        if k < 48 || k > 57 {
            assert(!is_digit(d[i - start]));
            assert(!all_digits(d));
            return None;
        }
        value = value * 10 + (k - 48) as u64;
        assert(digit_value(c) == k - 48);
        assert(all_digits(d.take(i + 1 - start)));
        if value > 0xFFFF_FFFFu64 {
            proof {
                if all_digits(d) {
                    lemma_decimal_grows(d, i + 1 - start, d.len() as int);
                    assert(d.take(d.len() as int) == d);
                }
            }
            return None;
        }
        i = i + 1;
    }
    assert(d.take(n - start) == d);
    Some(value as u32)
}

/// The digits of a signed number: what follows a leading `+` or `-`, if any.
pub open spec fn signed_digits(s: Seq<char>) -> Seq<char> {
    if s.len() > 0 && (s[0] == '+' || s[0] == '-') {
        s.drop_first()
    } else {
        s
    }
}

/// What `str::parse::<i64>` gives: an optional sign, then one digit or more,
/// of a value that fits in 64 bits.
pub open spec fn parse_i64(s: Seq<char>) -> Option<i64> {
    let d = signed_digits(s);
    let v = if s.len() > 0 && s[0] == '-' {
        -decimal(d)
    } else {
        decimal(d)
    };
    if d.len() > 0 && all_digits(d) && i64::MIN <= v <= i64::MAX {
        Some(v as i64)
    } else {
        None
    }
}

/// `parse_i64`, on a vector of characters.
pub fn parse_i64_of(v: &Vec<char>) -> (r: Option<i64>)
    ensures
        r == parse_i64(v@),
{
    let n = v.len();
    let negative = n > 0 && v[0] == '-';
    let start: usize = if n > 0 && (v[0] == '+' || v[0] == '-') {
        1
    } else {
        0
    };
    let ghost d = signed_digits(v@);
    assert(d == v@.skip(start as int));
    if start == n {
        return None;
    }
    let mut value: u128 = 0;
    let mut i: usize = start;
    while i < n
        invariant
            n == v@.len(),
            start < n,
            start <= i <= n,
            d == v@.skip(start as int),
            d == signed_digits(v@),
            negative == (v@.len() > 0 && v@[0] == '-'),
            all_digits(d.take(i - start)),
            value == decimal(d.take(i - start)),
            value <= 0x8000_0000_0000_0000u128,
        decreases n - i,
    {
        let c = v[i];
        let k = c as u32;
        assert(d.take(i + 1 - start).drop_last() == d.take(i - start));
        assert(d.take(i + 1 - start).last() == c);
        assert(d[i - start] == c);
        if k < 48 || k > 57 {
            assert(!is_digit(d[i - start]));
            assert(!all_digits(d));
            return None;
        }
        value = value * 10 + (k - 48) as u128;
        assert(digit_value(c) == k - 48);
        assert(all_digits(d.take(i + 1 - start)));
        if value > 0x8000_0000_0000_0000u128 {
            proof {
                if all_digits(d) {
                    lemma_decimal_grows(d, i + 1 - start, d.len() as int);
                    assert(d.take(d.len() as int) == d);
                }
            }
            return None;
        }
        i = i + 1;
    }
    assert(d.take(n - start) == d);
    if negative {
        if value == 0x8000_0000_0000_0000u128 {
            Some(i64::MIN)
        } else {
            Some(-(value as i64))
        }
    } else if value > 0x7FFF_FFFF_FFFF_FFFFu128 {
        None
    } else {
        Some(value as i64)
    }
}

} // verus!
