//! Character-level text helpers shared by the node tree, the attribute
//! values and the event names: whitespace trimming and splitting, ASCII
//! case folding, joining, decimal rendering and decimal parsing.
use vstd::prelude::*;

verus! {

/// The characters that `char::is_whitespace` accepts (the Unicode
/// `White_Space` property).
pub open spec fn is_space(c: char) -> bool {
    ||| ('\u{9}' <= c && c <= '\u{d}')
    ||| c == ' '
    ||| c == '\u{85}'
    ||| c == '\u{a0}'
    ||| c == '\u{1680}'
    ||| ('\u{2000}' <= c && c <= '\u{200a}')
    ||| c == '\u{2028}'
    ||| c == '\u{2029}'
    ||| c == '\u{202f}'
    ||| c == '\u{205f}'
    ||| c == '\u{3000}'
}

pub fn space(c: char) -> (r: bool)
    ensures
        r == is_space(c),
{
    ('\u{9}' <= c && c <= '\u{d}') || c == ' ' || c == '\u{85}' || c == '\u{a0}' || c == '\u{1680}'
        || ('\u{2000}' <= c && c <= '\u{200a}') || c == '\u{2028}' || c == '\u{2029}' || c
        == '\u{202f}' || c == '\u{205f}' || c == '\u{3000}'
}

/// `c` with an ASCII capital letter replaced by its small letter.
pub open spec fn lower_char(c: char) -> char {
    if 'A' <= c && c <= 'Z' {
        ((c as u32) + 32) as char
    } else {
        c
    }
}

pub open spec fn lower(s: Seq<char>) -> Seq<char> {
    s.map_values(|c: char| lower_char(c))
}

/// The leading whitespace of `s` removed.
pub open spec fn trim_start(s: Seq<char>) -> Seq<char>
    decreases s.len(),
{
    if s.len() > 0 && is_space(s[0]) {
        trim_start(s.drop_first())
    } else {
        s
    }
}

/// The trailing whitespace of `s` removed.
pub open spec fn trim_end(s: Seq<char>) -> Seq<char>
    decreases s.len(),
{
    if s.len() > 0 && is_space(s.last()) {
        trim_end(s.drop_last())
    } else {
        s
    }
}

/// What `str::trim` gives back.
pub open spec fn trim(s: Seq<char>) -> Seq<char> {
    trim_end(trim_start(s))
}

/// The leading run of characters of `s` that are not whitespace.
pub open spec fn word(s: Seq<char>) -> Seq<char>
    decreases s.len(),
{
    if s.len() > 0 && !is_space(s[0]) {
        seq![s[0]] + word(s.drop_first())
    } else {
        Seq::empty()
    }
}

/// The maximal runs of characters that are not whitespace, in order: what
/// `str::split_whitespace` yields.
pub open spec fn words(s: Seq<char>) -> Seq<Seq<char>>
    decreases s.len(),
{
    let t = trim_start(s);
    if t.len() == 0 {
        Seq::empty()
    } else {
        proof {
            lemma_trim_start_shape(s);
            lemma_word_len(t);
        }
        seq![word(t)] + words(t.skip(word(t).len() as int))
    }
}

/// The pieces of `s` between the occurrences of `sep`: what `str::split`
/// with a character pattern yields (always at least one piece).
pub open spec fn split_on(s: Seq<char>, sep: char) -> Seq<Seq<char>>
    decreases s.len(),
{
    if s.len() == 0 {
        seq![Seq::empty()]
    } else {
        let rest = split_on(s.drop_first(), sep);
        if s[0] == sep {
            seq![Seq::empty()] + rest
        } else {
            rest.update(0, seq![s[0]] + rest[0])
        }
    }
}

/// The parts put one after another with a single space between
/// neighbours: what `[String]::join(" ")` gives back.
pub open spec fn join_space(parts: Seq<Seq<char>>) -> Seq<char>
    decreases parts.len(),
{
    if parts.len() == 0 {
        Seq::empty()
    } else if parts.len() == 1 {
        parts[0]
    } else {
        join_space(parts.drop_last()) + seq![' '] + parts.last()
    }
}

pub open spec fn digit_char(d: int) -> char {
    (('0' as int) + d) as char
}

/// The decimal digits of `n`, without sign or leading zeros.
pub open spec fn nat_text(n: nat) -> Seq<char>
    decreases n,
{
    if n < 10 {
        seq![digit_char(n as int)]
    } else {
        nat_text(n / 10).push(digit_char((n % 10) as int))
    }
}

/// What `to_string` gives back for an integer.
pub open spec fn int_text(i: int) -> Seq<char> {
    if i < 0 {
        seq!['-'] + nat_text((-i) as nat)
    } else {
        nat_text(i as nat)
    }
}

pub open spec fn is_digit(c: char) -> bool {
    '0' <= c && c <= '9'
}

pub open spec fn all_digits(s: Seq<char>) -> bool {
    forall|i: int| 0 <= i < s.len() ==> is_digit(#[trigger] s[i])
}

/// The value of a run of decimal digits.
pub open spec fn digits_value(s: Seq<char>) -> nat
    decreases s.len(),
{
    if s.len() == 0 {
        0
    } else {
        digits_value(s.drop_last()) * 10 + ((s.last() as int) - ('0' as int)) as nat
    }
}

/// What `str::parse::<u32>` succeeds with: an optional `+`, then one or
/// more decimal digits whose value fits in a `u32`.
pub open spec fn parse_u32_spec(s: Seq<char>) -> Option<u32> {
    let d = if s.len() > 0 && s[0] == '+' {
        s.drop_first()
    } else {
        s
    };
    if d.len() > 0 && all_digits(d) && digits_value(d) <= u32::MAX {
        Some(digits_value(d) as u32)
    } else {
        None
    }
}

/// `String::push`, which appends one character to the string.
#[verifier::external_body]
fn push_char(s: &mut String, c: char)
    ensures
        final(s)@ == old(s)@.push(c),
{
    s.push(c);
}

/// `c` with an ASCII capital letter replaced by its small letter, as
/// `char::to_ascii_lowercase` does.
fn ascii_lower(c: char) -> (r: char)
    ensures
        r == lower_char(c),
{
    if 'A' <= c && c <= 'Z' {
        let b: u8 = c as u8;
        (b + 32) as char
    } else {
        c
    }
}

/// The characters of `s` in a vector.
pub fn chars_of(s: &str) -> (r: Vec<char>)
    ensures
        r@ == s@,
{
    let n = s.unicode_len();
    let mut out: Vec<char> = Vec::new();
    let mut i: usize = 0;
    while i < n
        invariant
            n == s@.len(),
            i <= n,
            out@ == s@.subrange(0, i as int),
        decreases n - i,
    {
        out.push(s.get_char(i));
        i = i + 1;
    }
    out
}

/// A string holding the characters of `cs`.
pub fn string_of(cs: &[char]) -> (r: String)
    ensures
        r@ == cs@,
{
    let mut out = String::new();
    let mut i: usize = 0;
    while i < cs.len()
        invariant
            i <= cs@.len(),
            out@ == cs@.subrange(0, i as int),
        decreases cs.len() - i,
    {
        push_char(&mut out, cs[i]);
        i = i + 1;
    }
    out
}

/// Whether two strings hold the same characters.
pub fn same_text(a: &str, b: &str) -> (r: bool)
    ensures
        r == (a@ == b@),
{
    let n = a.unicode_len();
    let m = b.unicode_len();
    if n != m {
        return false;
    }
    let mut i: usize = 0;
    while i < n
        invariant
            n == a@.len(),
            m == b@.len(),
            n == m,
            i <= n,
            a@.subrange(0, i as int) == b@.subrange(0, i as int),
        decreases n - i,
    {
        if a.get_char(i) != b.get_char(i) {
            return false;
        }
        assert(a@.subrange(0, i + 1) == a@.subrange(0, i as int).push(a@[i as int]));
        assert(b@.subrange(0, i + 1) == b@.subrange(0, i as int).push(b@[i as int]));
        i = i + 1;
    }
    assert(a@ == a@.subrange(0, n as int));
    assert(b@ == b@.subrange(0, n as int));
    true
}

/// `str::to_ascii_lowercase`.
pub fn to_lower(s: &str) -> (r: String)
    ensures
        r@ == lower(s@),
{
    let n = s.unicode_len();
    let mut out = String::new();
    let mut i: usize = 0;
    while i < n
        invariant
            n == s@.len(),
            i <= n,
            out@ == lower(s@.subrange(0, i as int)),
        decreases n - i,
    {
        let c = s.get_char(i);
        push_char(&mut out, ascii_lower(c));
        assert(lower(s@.subrange(0, i + 1)) =~= lower(s@.subrange(0, i as int)).push(
            lower_char(c),
        ));
        i = i + 1;
    }
    assert(s@.subrange(0, n as int) =~= s@);
    out
}

proof fn lemma_trim_start_skip(s: Seq<char>, i: int)
    requires
        0 <= i <= s.len(),
        forall|k: int| 0 <= k < i ==> is_space(#[trigger] s[k]),
    ensures
        trim_start(s) == trim_start(s.skip(i)),
    decreases i,
{
    if i > 0 {
        assert(is_space(s[0]));
        assert(s.drop_first().skip(i - 1) =~= s.skip(i));
        assert forall|k: int| 0 <= k < i - 1 implies is_space(#[trigger] s.drop_first()[k]) by {
            assert(s.drop_first()[k] == s[k + 1]);
        }
        lemma_trim_start_skip(s.drop_first(), i - 1);
    } else {
        assert(s.skip(0) =~= s);
    }
}

proof fn lemma_trim_end_take(s: Seq<char>, j: int)
    requires
        0 <= j <= s.len(),
        forall|k: int| j <= k < s.len() ==> is_space(#[trigger] s[k]),
    ensures
        trim_end(s) == trim_end(s.take(j)),
    decreases s.len() - j,
{
    if j < s.len() {
        assert(is_space(s.last()));
        assert(s.drop_last().take(j) =~= s.take(j));
        lemma_trim_end_take(s.drop_last(), j);
    } else {
        assert(s.take(j) =~= s);
    }
}

/// Leading and trailing whitespace removed, as `str::trim` does.
pub fn trim_text(s: &str) -> (r: String)
    ensures
        r@ == trim(s@),
{
    let cs = chars_of(s);
    let n = cs.len();
    let mut a: usize = 0;
    while a < n && space(cs[a])
        invariant
            n == cs@.len(),
            a <= n,
            forall|k: int| 0 <= k < a ==> is_space(#[trigger] cs@[k]),
        decreases n - a,
    {
        a = a + 1;
    }
    proof {
        lemma_trim_start_skip(cs@, a as int);
    }
    let ghost t = cs@.skip(a as int);
    assert(trim_start(t) == t);
    let mut b: usize = n;
    while b > a && space(cs[b - 1])
        invariant
            a <= b <= n,
            n == cs@.len(),
            forall|k: int| b <= k < n ==> is_space(#[trigger] cs@[k]),
        decreases b,
    {
        b = b - 1;
    }
    proof {
        assert forall|k: int| (b - a) <= k < t.len() implies is_space(#[trigger] t[k]) by {
            assert(t[k] == cs@[k + a]);
        }
        lemma_trim_end_take(t, (b - a) as int);
        assert(t.take((b - a) as int) =~= cs@.subrange(a as int, b as int));
        if b > a {
            assert(!is_space(cs@[b - 1]));
        }
    }
    let mut out: Vec<char> = Vec::new();
    let mut i: usize = a;
    while i < b
        invariant
            a <= i <= b <= n,
            n == cs@.len(),
            out@ == cs@.subrange(a as int, i as int),
        decreases b - i,
    {
        out.push(cs[i]);
        i = i + 1;
    }
    string_of(&out)
}

pub proof fn lemma_trim_start_shape(s: Seq<char>)
    ensures
        trim_start(s).len() <= s.len(),
        trim_start(s).len() > 0 ==> !is_space(trim_start(s)[0]),
    decreases s.len(),
{
    if s.len() > 0 && is_space(s[0]) {
        lemma_trim_start_shape(s.drop_first());
    }
}

pub proof fn lemma_word_len(s: Seq<char>)
    ensures
        s.len() > 0 && !is_space(s[0]) ==> word(s).len() >= 1,
        word(s).len() <= s.len(),
        word(s) == s.take(word(s).len() as int),
        forall|k: int| 0 <= k < word(s).len() ==> !is_space(#[trigger] s[k]),
        word(s).len() < s.len() ==> is_space(s[word(s).len() as int]),
    decreases s.len(),
{
    if s.len() > 0 && !is_space(s[0]) {
        lemma_word_len(s.drop_first());
        assert(word(s) =~= s.take(word(s).len() as int));
        assert forall|k: int| 0 <= k < word(s).len() implies !is_space(#[trigger] s[k]) by {
            if k > 0 {
                assert(s[k] == s.drop_first()[k - 1]);
            }
        }
        if word(s).len() < s.len() {
            assert(s[word(s).len() as int] == s.drop_first()[word(s.drop_first()).len() as int]);
        }
    }
}

proof fn lemma_word_prefix(s: Seq<char>, j: int)
    requires
        0 <= j <= s.len(),
        forall|k: int| 0 <= k < j ==> !is_space(#[trigger] s[k]),
        j == s.len() || is_space(s[j]),
    ensures
        word(s) == s.take(j),
    decreases j,
{
    if j > 0 {
        assert forall|k: int| 0 <= k < j - 1 implies !is_space(#[trigger] s.drop_first()[k]) by {
            assert(s.drop_first()[k] == s[k + 1]);
        }
        if j - 1 < s.drop_first().len() {
            assert(s.drop_first()[j - 1] == s[j]);
        }
        lemma_word_prefix(s.drop_first(), j - 1);
        assert(s.take(j) =~= seq![s[0]] + s.drop_first().take(j - 1));
    } else {
        assert(s.take(0) =~= Seq::<char>::empty());
    }
}

/// The whitespace-separated words of `s`, as `str::split_whitespace` yields them.
pub fn split_words(s: &str) -> (r: Vec<String>)
    ensures
        r@.len() == words(s@).len(),
        forall|i: int| 0 <= i < r@.len() ==> #[trigger] r@[i]@ == words(s@)[i],
{
    let cs = chars_of(s);
    let n = cs.len();
    let mut out: Vec<String> = Vec::new();
    let mut i: usize = 0;
    let ghost done: Seq<Seq<char>> = Seq::empty();
    assert(cs@.skip(0) =~= cs@);
    assert(done + words(cs@.skip(0)) =~= words(cs@));
    while i < n
        invariant
            n == cs@.len(),
            cs@ == s@,
            i <= n,
            words(s@) == done + words(cs@.skip(i as int)),
            out@.len() == done.len(),
            forall|k: int| 0 <= k < out@.len() ==> #[trigger] out@[k]@ == done[k],
        decreases n - i,
    {
        let ghost rest = cs@.skip(i as int);
        let mut a: usize = i;
        while a < n && space(cs[a])
            invariant
                i <= a <= n,
                n == cs@.len(),
                forall|k: int| i <= k < a ==> is_space(#[trigger] cs@[k]),
            decreases n - a,
        {
            a = a + 1;
        }
        proof {
            assert forall|k: int| 0 <= k < a - i implies is_space(#[trigger] rest[k]) by {
                assert(rest[k] == cs@[k + i]);
            }
            lemma_trim_start_skip(rest, (a - i) as int);
            assert(rest.skip((a - i) as int) =~= cs@.skip(a as int));
            if a < n {
                assert(!is_space(cs@.skip(a as int)[0]));
            }
            assert(trim_start(cs@.skip(a as int)) == cs@.skip(a as int));
        }
        if a == n {
            proof {
                assert(cs@.skip(a as int).len() == 0);
                assert(words(rest) =~= Seq::<Seq<char>>::empty());
                assert(done + words(rest) =~= done);
            }
            i = n;
            assert(words(cs@.skip(i as int)) =~= Seq::<Seq<char>>::empty());
            assert(done + words(cs@.skip(i as int)) =~= done);
        } else {
            let mut b: usize = a;
            while b < n && !space(cs[b])
                invariant
                    a <= b <= n,
                    n == cs@.len(),
                    forall|k: int| a <= k < b ==> !is_space(#[trigger] cs@[k]),
                decreases n - b,
            {
                b = b + 1;
            }
            let ghost t = cs@.skip(a as int);
            proof {
                assert forall|k: int| 0 <= k < b - a implies !is_space(#[trigger] t[k]) by {
                    assert(t[k] == cs@[k + a]);
                }
                if b < n {
                    assert(t[(b - a) as int] == cs@[b as int]);
                }
                lemma_word_prefix(t, (b - a) as int);
                assert(t.take((b - a) as int) =~= cs@.subrange(a as int, b as int));
                assert(t.skip((b - a) as int) =~= cs@.skip(b as int));
                assert(words(rest) == seq![word(t)] + words(t.skip(word(t).len() as int)));
            }
            let mut w: Vec<char> = Vec::new();
            let mut k: usize = a;
            while k < b
                invariant
                    a <= k <= b <= n,
                    n == cs@.len(),
                    w@ == cs@.subrange(a as int, k as int),
                decreases b - k,
            {
                w.push(cs[k]);
                k = k + 1;
            }
            let ws = string_of(&w);
            out.push(ws);
            proof {
                assert(done.push(word(t)) + words(cs@.skip(b as int)) =~= done + (seq![word(t)]
                    + words(cs@.skip(b as int))));
                done = done.push(word(t));
            }
            i = b;
        }
    }
    assert(cs@.skip(n as int).len() == 0);
    assert(words(cs@.skip(n as int)) =~= Seq::<Seq<char>>::empty());
    assert(done + words(cs@.skip(n as int)) =~= done);
    out
}

/// The parts joined with single spaces, as `join(" ")` does.
pub fn join_with_space(parts: &Vec<String>) -> (r: String)
    ensures
        r@ == join_space(parts@.map_values(|p: String| p@)),
{
    let ghost views = parts@.map_values(|p: String| p@);
    let mut out = String::new();
    let mut i: usize = 0;
    while i < parts.len()
        invariant
            i <= parts@.len(),
            views == parts@.map_values(|p: String| p@),
            out@ == join_space(views.take(i as int)),
        decreases parts.len() - i,
    {
        assert(views.take(i + 1).drop_last() =~= views.take(i as int));
        if i > 0 {
            push_char(&mut out, ' ');
        }
        out.append(parts[i].as_str());
        if i == 0 {
            assert(views.take(1) =~= seq![views[0]]);
        }
        i = i + 1;
    }
    assert(views.take(parts@.len() as int) =~= views);
    out
}

proof fn lemma_nat_text_len(n: nat)
    ensures
        nat_text(n).len() >= 1,
    decreases n,
{
    if n >= 10 {
        lemma_nat_text_len(n / 10);
    }
}

/// The decimal text of `value`, as `to_string` renders it.
pub fn int_to_text(value: i64) -> (r: String)
    ensures
        r@ == int_text(value as int),
{
    let neg = value < 0;
    let mut mag: u64 = if neg {
        (0i128 - (value as i128)) as u64
    } else {
        value as u64
    };
    let ghost total: nat = mag as nat;
    // digits collected from the least significant one
    let mut rev: Vec<char> = Vec::new();
    let ghost mut tail: Seq<char> = Seq::empty();
    assert(nat_text(total) =~= nat_text(mag as nat) + tail);
    while mag >= 10
        invariant
            total == (if neg { -(value as int) } else { value as int }),
            rev@.len() == tail.len(),
            forall|k: int| 0 <= k < rev@.len() ==> #[trigger] rev@[k] == tail[tail.len() - 1 - k],
            nat_text(total) == nat_text(mag as nat) + tail,
        decreases mag,
    {
        let c = digit_of((mag % 10) as u32);
        let ghost old_mag = mag;
        rev.push(c);
        mag = mag / 10;
        proof {
            let old_tail = tail;
            tail = seq![c] + old_tail;
            assert(nat_text(old_mag as nat) == nat_text(mag as nat).push(c));
            assert(nat_text(mag as nat).push(c) + old_tail =~= nat_text(mag as nat) + tail);
            assert forall|k: int| 0 <= k < rev@.len() implies #[trigger] rev@[k] == tail[tail.len()
                - 1 - k] by {
                if k < rev@.len() - 1 {
                    assert(tail[tail.len() - 1 - k] == old_tail[old_tail.len() - 1 - k]);
                }
            }
        }
    }
    let c = digit_of(mag as u32);
    rev.push(c);
    proof {
        let old_tail = tail;
        tail = seq![c] + old_tail;
        assert(nat_text(mag as nat) == seq![c]);
        assert(nat_text(total) =~= tail);
        assert forall|k: int| 0 <= k < rev@.len() implies #[trigger] rev@[k] == tail[tail.len() - 1
            - k] by {
            if k < rev@.len() - 1 {
                assert(tail[tail.len() - 1 - k] == old_tail[old_tail.len() - 1 - k]);
            }
        }
    }
    let mut out = String::new();
    if neg {
        push_char(&mut out, '-');
    }
    let mut i: usize = rev.len();
    while i > 0
        invariant
            i <= rev@.len(),
            rev@.len() == tail.len(),
            forall|k: int| 0 <= k < rev@.len() ==> #[trigger] rev@[k] == tail[tail.len() - 1 - k],
            out@ == (if neg { seq!['-'] } else { Seq::<char>::empty() }) + tail.subrange(
                0,
                (rev@.len() - i) as int,
            ),
        decreases i,
    {
        i = i - 1;
        push_char(&mut out, rev[i]);
        assert(tail.subrange(0, (rev@.len() - i) as int) =~= tail.subrange(
            0,
            (rev@.len() - i - 1) as int,
        ).push(tail[(rev@.len() - i - 1) as int]));
        assert((if neg { seq!['-'] } else { Seq::<char>::empty() }) + tail.subrange(
            0,
            (rev@.len() - i) as int,
        ) =~= ((if neg { seq!['-'] } else { Seq::<char>::empty() }) + tail.subrange(
            0,
            (rev@.len() - i - 1) as int,
        )).push(tail[(rev@.len() - i - 1) as int]));
    }
    assert(tail.subrange(0, tail.len() as int) =~= tail);
    if !neg {
        assert(Seq::<char>::empty() + tail =~= tail);
    }
    out
}

fn digit_of(d: u32) -> (c: char)
    requires
        d < 10,
    ensures
        c == digit_char(d as int),
{
    if d == 0 {
        '0'
    } else if d == 1 {
        '1'
    } else if d == 2 {
        '2'
    } else if d == 3 {
        '3'
    } else if d == 4 {
        '4'
    } else if d == 5 {
        '5'
    } else if d == 6 {
        '6'
    } else if d == 7 {
        '7'
    } else if d == 8 {
        '8'
    } else {
        '9'
    }
}

proof fn lemma_digits_value_push(s: Seq<char>, c: char)
    ensures
        digits_value(s.push(c)) == digits_value(s) * 10 + ((c as int) - ('0' as int)) as nat,
{
    assert(s.push(c).drop_last() =~= s);
}

/// `str::parse::<u32>`, with `None` for every input it refuses.
pub fn parse_u32(s: &str) -> (r: Option<u32>)
    ensures
        r == parse_u32_spec(s@),
{
    let cs = chars_of(s);
    let n = cs.len();
    let start: usize = if n > 0 && cs[0] == '+' {
        1
    } else {
        0
    };
    let ghost d = if s@.len() > 0 && s@[0] == '+' {
        s@.drop_first()
    } else {
        s@
    };
    assert(d =~= cs@.skip(start as int));
    if start == n {
        return None;
    }
    let mut acc: u64 = 0;
    let mut i: usize = start;
    while i < n
        invariant
            start <= i <= n,
            n == cs@.len(),
            cs@ == s@,
            d == (if s@.len() > 0 && s@[0] == '+' {
                s@.drop_first()
            } else {
                s@
            }),
            d == cs@.skip(start as int),
            acc as nat == digits_value(cs@.subrange(start as int, i as int)),
            acc <= u32::MAX,
            all_digits(cs@.subrange(start as int, i as int)),
        decreases n - i,
    {
        let c = cs[i];
        if !('0' <= c && c <= '9') {
            assert(d[i - start] == c);
            assert(!all_digits(d));
            return None;
        }
        let v: u64 = (c as u32 - '0' as u32) as u64;
        proof {
            lemma_digits_value_push(cs@.subrange(start as int, i as int), c);
            assert(cs@.subrange(start as int, i + 1) =~= cs@.subrange(start as int, i as int).push(
                c,
            ));
        }
        acc = acc * 10 + v;
        if acc > 4294967295 {
            proof {
                if all_digits(d) {
                    lemma_digits_value_monotone(d, (i + 1 - start) as int);
                    assert(d.take((i + 1 - start) as int) =~= cs@.subrange(start as int, i + 1));
                }
            }
            return None;
        }
        i = i + 1;
    }
    assert(cs@.subrange(start as int, n as int) =~= d);
    Some(acc as u32)
}

proof fn lemma_digits_value_monotone(s: Seq<char>, k: int)
    requires
        0 <= k <= s.len(),
        all_digits(s),
    ensures
        digits_value(s.take(k)) <= digits_value(s),
    decreases s.len() - k,
{
    if k < s.len() {
        lemma_digits_value_monotone(s, k + 1);
        assert(s.take(k + 1).drop_last() =~= s.take(k));
        assert(is_digit(s[k]));
    } else {
        assert(s.take(k) =~= s);
    }
}

/// The pieces of `s` between the occurrences of `sep`, as `str::split` yields them.
pub fn split_text(s: &str, sep: char) -> (r: Vec<String>)
    ensures
        r@.len() == split_on(s@, sep).len(),
        forall|i: int| 0 <= i < r@.len() ==> #[trigger] r@[i]@ == split_on(s@, sep)[i],
{
    let cs = chars_of(s);
    let n = cs.len();
    // pieces are gathered from the end of the text towards its start
    let mut rev_pieces: Vec<Vec<char>> = Vec::new();
    let mut cur: Vec<char> = Vec::new();
    let mut i: usize = n;
    while i > 0
        invariant
            i <= n,
            n == cs@.len(),
            cs@ == s@,
            ({
                let sp = split_on(cs@.skip(i as int), sep);
                &&& sp.len() == rev_pieces@.len() + 1
                &&& sp[0] == cur@
                &&& forall|k: int|
                    0 <= k < rev_pieces@.len() ==> #[trigger] rev_pieces@[k]@ == sp[sp.len() - 1
                        - k]
            }),
        decreases i,
    {
        i = i - 1;
        let c = cs[i];
        let ghost old_rest = cs@.skip(i + 1);
        assert(cs@.skip(i as int).drop_first() =~= old_rest);
        assert(cs@.skip(i as int)[0] == c);
        if c == sep {
            let done = cur;
            rev_pieces.push(done);
            cur = Vec::new();
        } else {
            let mut nc: Vec<char> = Vec::new();
            nc.push(c);
            let mut k: usize = 0;
            while k < cur.len()
                invariant
                    k <= cur@.len(),
                    nc@ == seq![c] + cur@.subrange(0, k as int),
                decreases cur.len() - k,
            {
                nc.push(cur[k]);
                k = k + 1;
                assert(seq![c] + cur@.subrange(0, k as int) =~= (seq![c] + cur@.subrange(
                    0,
                    k - 1,
                )).push(cur@[k - 1]));
            }
            assert(cur@.subrange(0, cur@.len() as int) =~= cur@);
            cur = nc;
        }
    }
    assert(cs@.skip(0) =~= cs@);
    let ghost sp = split_on(s@, sep);
    let mut out: Vec<String> = Vec::new();
    out.push(string_of(&cur));
    let mut j: usize = rev_pieces.len();
    while j > 0
        invariant
            j <= rev_pieces@.len(),
            sp.len() == rev_pieces@.len() + 1,
            sp[0] == cur@,
            forall|k: int|
                0 <= k < rev_pieces@.len() ==> #[trigger] rev_pieces@[k]@ == sp[sp.len() - 1 - k],
            out@.len() == rev_pieces@.len() + 1 - j,
            forall|k: int| 0 <= k < out@.len() ==> #[trigger] out@[k]@ == sp[k],
        decreases j,
    {
        j = j - 1;
        let piece = string_of(rev_pieces[j].as_slice());
        out.push(piece);
        assert(rev_pieces@[j as int]@ == sp[sp.len() - 1 - j]);
    }
    out
}

proof fn lemma_nat_int_text(v: nat)
    ensures
        int_text(v as int) == nat_text(v),
{
}

/// The decimal text of an unsigned value.
pub fn unsigned_to_text(v: u64) -> (r: String)
    ensures
        r@ == nat_text(v as nat),
{
    if v <= 0x7fff_ffff_ffff_ffffu64 {
        let t = int_to_text(v as i64);
        proof {
            lemma_nat_int_text(v as nat);
        }
        t
    } else {
        // every digit but the last, then the last
        let q = v / 10;
        let d = (v % 10) as i64;
        let head = int_to_text(q as i64);
        let last = int_to_text(d);
        proof {
            lemma_nat_int_text(q as nat);
            lemma_nat_int_text(d as nat);
            assert(nat_text(v as nat) == nat_text((v / 10) as nat).push(
                digit_char((v % 10) as int),
            ));
        }
        let mut out = head;
        out.append(last.as_str());
        assert(out@ =~= nat_text(v as nat));
        out
    }
}

} // verus!
