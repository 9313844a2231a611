//! Text helpers: decimal rendering, thousands grouping, trimming, case
//! mapping and character-level string building.

use vstd::prelude::*;
use vstd::string::*;
use vstd::utf8::*;

verus! {

// ── Decimal rendering ───────────────────────────────────────────────────────

/// The ASCII digit for `d` (0 ≤ d < 10).
pub open spec fn digit_char(d: nat) -> char {
    ((48 + d) as u8) as char
}

/// Decimal representation of `n`, most significant digit first, no leading zeros.
pub open spec fn decimal(n: nat) -> Seq<char>
    decreases n,
{
    if n < 10 {
        seq![digit_char(n)]
    } else {
        decimal(n / 10).push(digit_char(n % 10))
    }
}

/// Groups a digit string in threes from the right, separated by commas.
pub open spec fn group_thousands(d: Seq<char>) -> Seq<char>
    decreases d.len(),
{
    if d.len() <= 3 {
        d
    } else {
        group_thousands(d.take(d.len() - 3)) + seq![','] + d.skip(d.len() - 3)
    }
}

/// Appends one character to a string (`String::push`).
#[verifier::external_body]
pub(crate) fn push_char(s: &mut String, c: char)
    ensures
        final(s)@ == old(s)@.push(c),
{
    s.push(c);
}

/// Builds a string holding exactly the given characters.
pub fn string_from_chars(cs: &Vec<char>) -> (res: String)
    ensures
        res@ == cs@,
{
    let mut res = String::new();
    let mut i: usize = 0;
    while i < cs.len()
        invariant
            i <= cs.len(),
            res@ == cs@.take(i as int),
        decreases cs.len() - i,
    {
        push_char(&mut res, cs[i]);
        i = i + 1;
        assert(res@ =~= cs@.take(i as int));
    }
    assert(cs@.take(cs.len() as int) =~= cs@);
    res
}

/// The characters of a string, in order.
pub fn chars_of(s: &str) -> (res: Vec<char>)
    ensures
        res@ == s@,
{
    let n = s.unicode_len();
    let mut res: Vec<char> = Vec::new();
    let mut i: usize = 0;
    while i < n
        invariant
            n == s@.len(),
            i <= n,
            res@ == s@.take(i as int),
        decreases n - i,
    {
        res.push(s.get_char(i));
        i = i + 1;
        assert(res@ =~= s@.take(i as int));
    }
    assert(s@.take(n as int) =~= s@);
    res
}

/// The ASCII digit character for a value below ten.
fn digit(d: u64) -> (c: char)
    requires
        d < 10,
    ensures
        c == digit_char(d as nat),
{
    ((48 + d) as u8) as char
}

/// The decimal digits of `n`, most significant first.
pub fn decimal_digits(n: u64) -> (res: Vec<char>)
    ensures
        res@ == decimal(n as nat),
    decreases n,
{
    if n < 10 {
        let mut v: Vec<char> = Vec::new();
        v.push(digit(n));
        proof {
            assert(v@ =~= seq![digit_char(n as nat)]);
        }
        v
    } else {
        let mut v = decimal_digits(n / 10);
        v.push(digit(n % 10));
        v
    }
}

/// The decimal representation of `n` as a string (what `n.to_string()` gives).
pub fn decimal_string(n: u64) -> (res: String)
    ensures
        res@ == decimal(n as nat),
{
    let d = decimal_digits(n);
    string_from_chars(&d)
}

/// `n` in decimal with a comma between each group of three digits,
/// counted from the right (e.g. 1234567 becomes "1,234,567").
pub fn fmt_num(n: u64) -> (res: String)
    ensures
        res@ == group_thousands(decimal(n as nat)),
{
    let d = decimal_digits(n);
    let len = d.len();
    proof {
        lemma_decimal_nonempty(n as nat);
    }
    if len <= 3 {
        return string_from_chars(&d);
    }
    let first: usize = if len % 3 == 0 { 3 } else { len % 3 };
    let mut out: Vec<char> = Vec::new();
    let mut k: usize = 0;
    while k < first
        invariant
            first <= 3 < len == d.len(),
            k <= first,
            out@ == d@.take(k as int),
        decreases first - k,
    {
        out.push(d[k]);
        k = k + 1;
        assert(out@ =~= d@.take(k as int));
    }
    assert(group_thousands(d@.take(first as int)) == d@.take(first as int));
    while k < len
        invariant
            len == d.len(),
            1 <= first <= k <= len,
            k % 3 == len % 3,
            out@ == group_thousands(d@.take(k as int)),
        decreases len - k,
    {
        out.push(',');
        out.push(d[k]);
        out.push(d[k + 1]);
        out.push(d[k + 2]);
        proof {
            let t = d@.take(k + 3);
            assert(t.take(t.len() - 3) =~= d@.take(k as int));
            assert(t.skip(t.len() - 3) =~= d@.subrange(k as int, k + 3));
            assert(out@ =~= group_thousands(d@.take(k as int)) + seq![','] + d@.subrange(
                k as int,
                k + 3,
            ));
        }
        k = k + 3;
    }
    assert(d@.take(len as int) =~= d@);
    string_from_chars(&out)
}

/// `s` with its commas removed.
pub open spec fn without_commas(s: Seq<char>) -> Seq<char>
    decreases s.len(),
{
    if s.len() == 0 {
        Seq::empty()
    } else {
        without_commas(s.drop_last()) + if s.last() == ',' {
            Seq::<char>::empty()
        } else {
            seq![s.last()]
        }
    }
}

proof fn lemma_without_commas_concat(a: Seq<char>, b: Seq<char>)
    ensures
        without_commas(a + b) == without_commas(a) + without_commas(b),
    decreases b.len(),
{
    if b.len() == 0 {
        assert(a + b =~= a);
        assert(without_commas(a) + without_commas(b) =~= without_commas(a));
    } else {
        lemma_without_commas_concat(a, b.drop_last());
        assert((a + b).drop_last() =~= a + b.drop_last());
        assert((a + b).last() == b.last());
        let tail = if b.last() == ',' {
            Seq::<char>::empty()
        } else {
            seq![b.last()]
        };
        assert(without_commas(a) + without_commas(b.drop_last()) + tail =~= without_commas(a) + (
        without_commas(b.drop_last()) + tail));
    }
}

proof fn lemma_without_commas_none(s: Seq<char>)
    requires
        !s.contains(','),
    ensures
        without_commas(s) == s,
    decreases s.len(),
{
    if s.len() > 0 {
        assert(!s.drop_last().contains(',')) by {
            if s.drop_last().contains(',') {
                let i = choose|i: int| 0 <= i < s.drop_last().len() && s.drop_last()[i] == ',';
                assert(s[i] == ',');
            }
        }
        lemma_without_commas_none(s.drop_last());
        assert(s.last() != ',') by {
            assert(s[s.len() - 1] == s.last());
        }
        assert(s.drop_last() + seq![s.last()] =~= s);
    }
}

proof fn lemma_group_thousands_strips(d: Seq<char>)
    requires
        !d.contains(','),
    ensures
        without_commas(group_thousands(d)) == d,
    decreases d.len(),
{
    if d.len() <= 3 {
        lemma_without_commas_none(d);
    } else {
        let a = d.take(d.len() - 3);
        let c = d.skip(d.len() - 3);
        assert(!a.contains(',')) by {
            if a.contains(',') {
                let i = choose|i: int| 0 <= i < a.len() && a[i] == ',';
                assert(d[i] == ',');
            }
        }
        assert(!c.contains(',')) by {
            if c.contains(',') {
                let i = choose|i: int| 0 <= i < c.len() && c[i] == ',';
                assert(d[d.len() - 3 + i] == ',');
            }
        }
        lemma_group_thousands_strips(a);
        lemma_without_commas_concat(group_thousands(a) + seq![','], c);
        lemma_without_commas_concat(group_thousands(a), seq![',']);
        assert(without_commas(seq![',']) =~= Seq::<char>::empty()) by {
            let s1 = seq![','];
            assert(s1.len() == 1);
            assert(s1.last() == ',');
            assert(s1.drop_last() =~= Seq::<char>::empty());
            assert(without_commas(Seq::<char>::empty()) == Seq::<char>::empty());
        }
        lemma_without_commas_none(c);
        assert(a + c =~= d);
    }
}

proof fn lemma_digit_not_comma(d: nat)
    requires
        d < 10,
    ensures
        digit_char(d) != ',',
{
    let b = (48 + d) as u8;
    assert(48 <= b <= 57);
    assert((b as char) as u32 == b as u32);
    assert(',' as u32 == 44);
}

proof fn lemma_decimal_digits_only(n: nat)
    ensures
        forall|i: int| 0 <= i < decimal(n).len() ==> #[trigger] decimal(n)[i] != ',',
    decreases n,
{
    lemma_digit_not_comma(n % 10);
    if n >= 10 {
        lemma_decimal_digits_only(n / 10);
        assert forall|i: int| 0 <= i < decimal(n).len() implies #[trigger] decimal(n)[i] != ',' by {
            if i < decimal(n / 10).len() {
                assert(decimal(n)[i] == decimal(n / 10)[i]);
            }
        }
    } else {
        assert(decimal(n)[0] == digit_char(n));
    }
}

/// `fmt_num` only inserts separators: without its commas it is the plain
/// decimal representation.
pub proof fn law_fmt_num_digits(n: nat)
    ensures
        without_commas(group_thousands(decimal(n))) == decimal(n),
{
    lemma_decimal_digits_only(n);
    assert(!decimal(n).contains(',')) by {
        if decimal(n).contains(',') {
            let i = choose|i: int| 0 <= i < decimal(n).len() && decimal(n)[i] == ',';
            assert(decimal(n)[i] != ',');
        }
    }
    lemma_group_thousands_strips(decimal(n));
}

proof fn lemma_decimal_nonempty(n: nat)
    ensures
        decimal(n).len() >= 1,
    decreases n,
{
    if n >= 10 {
        lemma_decimal_nonempty(n / 10);
    }
}

// ── Whitespace trimming ─────────────────────────────────────────────────────

/// Unicode `White_Space` (what `char::is_whitespace` tests).
pub open spec fn is_ws(c: char) -> bool {
    let u = c as u32;
    ||| 0x09 <= u <= 0x0D
    ||| u == 0x20
    ||| u == 0x85
    ||| u == 0xA0
    ||| u == 0x1680
    ||| 0x2000 <= u <= 0x200A
    ||| u == 0x2028
    ||| u == 0x2029
    ||| u == 0x202F
    ||| u == 0x205F
    ||| u == 0x3000
}

/// Number of leading whitespace characters.
pub open spec fn lead_ws(s: Seq<char>) -> nat
    decreases s.len(),
{
    if s.len() == 0 || !is_ws(s[0]) {
        0
    } else {
        1 + lead_ws(s.drop_first())
    }
}

/// Number of trailing whitespace characters.
pub open spec fn trail_ws(s: Seq<char>) -> nat
    decreases s.len(),
{
    if s.len() == 0 || !is_ws(s.last()) {
        0
    } else {
        1 + trail_ws(s.drop_last())
    }
}

/// `s` without leading and trailing whitespace (what `str::trim` gives).
pub open spec fn trim(s: Seq<char>) -> Seq<char> {
    if lead_ws(s) == s.len() {
        Seq::empty()
    } else {
        s.subrange(lead_ws(s) as int, s.len() - trail_ws(s))
    }
}

fn char_is_ws(c: char) -> (b: bool)
    ensures
        b == is_ws(c),
{
    let u = c as u32;
    (0x09 <= u && u <= 0x0D) || u == 0x20 || u == 0x85 || u == 0xA0 || u == 0x1680 || (0x2000
        <= u && u <= 0x200A) || u == 0x2028 || u == 0x2029 || u == 0x202F || u == 0x205F || u
        == 0x3000
}

proof fn lemma_lead_ws(s: Seq<char>, i: int)
    requires
        0 <= i <= s.len(),
        forall|j: int| 0 <= j < i ==> is_ws(#[trigger] s[j]),
        i == s.len() || !is_ws(s[i]),
    ensures
        lead_ws(s) == i,
    decreases i,
{
    if i > 0 {
        let t = s.drop_first();
        assert forall|j: int| 0 <= j < i - 1 implies is_ws(#[trigger] t[j]) by {
            assert(t[j] == s[j + 1]);
        }
        if i < s.len() {
            assert(t[i - 1] == s[i]);
        }
        lemma_lead_ws(t, i - 1);
    }
}

proof fn lemma_trail_ws(s: Seq<char>, i: int)
    requires
        0 <= i <= s.len(),
        forall|j: int| s.len() - i <= j < s.len() ==> is_ws(#[trigger] s[j]),
        i == s.len() || !is_ws(s[s.len() - 1 - i]),
    ensures
        trail_ws(s) == i,
    decreases i,
{
    if i > 0 {
        let t = s.drop_last();
        assert forall|j: int| t.len() - (i - 1) <= j < t.len() implies is_ws(#[trigger] t[j]) by {
            assert(t[j] == s[j]);
        }
        if i < s.len() {
            assert(t[t.len() - 1 - (i - 1)] == s[s.len() - 1 - i]);
        }
        assert(is_ws(s[s.len() - 1]));
        lemma_trail_ws(t, i - 1);
    }
}

/// Removes leading and trailing whitespace from a character sequence.
pub fn trim_chars(cs: &Vec<char>) -> (res: String)
    ensures
        res@ == trim(cs@),
{
    let len = cs.len();
    let mut a: usize = 0;
    while a < len && char_is_ws(cs[a])
        invariant
            a <= len == cs.len(),
            forall|j: int| 0 <= j < a ==> is_ws(#[trigger] cs@[j]),
        decreases len - a,
    {
        a = a + 1;
    }
    proof {
        lemma_lead_ws(cs@, a as int);
    }
    if a == len {
        return String::new();
    }
    let mut t: usize = 0;
    while t < len - a && char_is_ws(cs[len - 1 - t])
        invariant
            a < len == cs.len(),
            !is_ws(cs@[a as int]),
            t <= len - a,
            forall|j: int| len - t <= j < len ==> is_ws(#[trigger] cs@[j]),
        decreases len - a - t,
    {
        t = t + 1;
    }
    proof {
        if t == len - a {
            assert(is_ws(cs@[a as int]));
        }
        lemma_trail_ws(cs@, t as int);
    }
    let mut out: Vec<char> = Vec::new();
    let mut i: usize = a;
    while i < len - t
        invariant
            a <= i <= len - t,
            t <= len == cs.len(),
            out@ == cs@.subrange(a as int, i as int),
        decreases len - t - i,
    {
        out.push(cs[i]);
        i = i + 1;
        assert(out@ =~= cs@.subrange(a as int, i as int));
    }
    string_from_chars(&out)
}

/// Removes leading and trailing whitespace (`str::trim`).
pub fn trim_str(s: &str) -> (res: String)
    ensures
        res@ == trim(s@),
{
    let cs = chars_of(s);
    trim_chars(&cs)
}

// ── Case mapping ─────────────────────────────────────────────────────────────

/// ASCII lower-casing of one character.
pub open spec fn ascii_lower(c: char) -> char {
    if 'A' <= c <= 'Z' {
        ((c as u32) + 32) as char
    } else {
        c
    }
}

/// ASCII upper-casing of one character.
pub open spec fn ascii_upper(c: char) -> char {
    if 'a' <= c <= 'z' {
        ((c as u32) - 32) as char
    } else {
        c
    }
}

/// What `str::to_lowercase` returns for a string.
pub uninterp spec fn lowercase(s: Seq<char>) -> Seq<char>;

/// What `str::to_uppercase` returns for a string.
pub uninterp spec fn uppercase(s: Seq<char>) -> Seq<char>;

/// Calls `str::to_lowercase`. Claimed: the result is a function of the input
/// alone, and on ASCII input each letter `A`–`Z` becomes `a`–`z` and every
/// other character stays (the Unicode lowercase mapping restricted to ASCII).
/// The mapping of non-ASCII characters is left to the name.
#[verifier::external_body]
pub(crate) fn to_lowercase(s: &str) -> (res: String)
    ensures
        res@ == lowercase(s@),
        is_ascii_chars(s@) ==> res@ == s@.map_values(|c: char| ascii_lower(c)),
{
    s.to_lowercase()
}

/// Calls `str::to_uppercase`. Claimed: the result is a function of the input
/// alone, and on ASCII input each letter `a`–`z` becomes `A`–`Z` and every
/// other character stays. The mapping of non-ASCII characters is left to the name.
#[verifier::external_body]
pub(crate) fn to_uppercase(s: &str) -> (res: String)
    ensures
        res@ == uppercase(s@),
        is_ascii_chars(s@) ==> res@ == s@.map_values(|c: char| ascii_upper(c)),
{
    s.to_uppercase()
}

// ── Byte-bounded truncation ─────────────────────────────────────────────────

/// The ellipsis appended by `truncate`.
pub open spec fn ellipsis() -> Seq<char> {
    seq!['\u{2026}']
}

/// Shortens `s` to at most `max_chars - 1` bytes of its UTF-8 encoding plus an
/// ellipsis when its encoding is longer than `max_chars` bytes; otherwise `s`
/// is kept. The cut must fall on a character boundary.
pub fn truncate(s: &str, max_chars: usize) -> (res: String)
    requires
        encode_utf8(s@).len() > max_chars ==> max_chars >= 1 && is_char_boundary(
            encode_utf8(s@),
            max_chars - 1,
        ),
    ensures
        encode_utf8(s@).len() <= max_chars ==> res@ == s@,
        encode_utf8(s@).len() > max_chars ==> res@ == decode_utf8(
            encode_utf8(s@).subrange(0, max_chars - 1),
        ) + ellipsis(),
{
    proof {
        broadcast use vstd::utf8::encode_utf8_valid_utf8;

        assert(valid_utf8(encode_utf8(s@)));
    }
    let byte_len = s.as_bytes().len();
    if byte_len <= max_chars {
        s.to_owned()
    } else {
        let (head, _) = s.split_at(max_chars - 1);
        assert(encode_utf8(head@) == encode_utf8(s@).subrange(0, max_chars - 1));
        let mut res = head.to_owned();
        let mut e = String::new();
        push_char(&mut e, '\u{2026}');
        res.append(e.as_str());
        proof {
            broadcast use vstd::utf8::encode_utf8_decode_utf8;

            assert(decode_utf8(encode_utf8(head@)) == head@);
            assert(e@ =~= ellipsis());
        }
        res
    }
}

} // verus!
