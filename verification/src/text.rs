//! Text forms used by the partition engine: decimal and hexadecimal numbers,
//! UUID text, unsigned parsing, whitespace trimming and searching.

use vstd::prelude::*;

verus! {

/// The decimal digit character for `d` (below ten).
pub open spec fn digit_char(d: nat) -> char {
    seq!['0', '1', '2', '3', '4', '5', '6', '7', '8', '9'][d as int]
}

/// The lower-case hexadecimal digit character for `d` (below sixteen).
pub open spec fn hex_char(d: nat) -> char {
    seq!['0', '1', '2', '3', '4', '5', '6', '7', '8', '9', 'a', 'b', 'c', 'd', 'e', 'f'][d as int]
}

/// Decimal digits of `n`, most significant first, without leading zeros.
pub open spec fn decimal_text(n: nat) -> Seq<char>
    decreases n,
{
    if n < 10 {
        seq![digit_char(n)]
    } else {
        decimal_text(n / 10).push(digit_char(n % 10))
    }
}

/// Lower-case hexadecimal digits of `n`, without leading zeros.
pub open spec fn hex_text(n: nat) -> Seq<char>
    decreases n,
{
    if n < 16 {
        seq![hex_char(n)]
    } else {
        hex_text(n / 16).push(hex_char(n % 16))
    }
}

/// `s` with '0' characters put in front until it is at least `width` long.
pub open spec fn pad_zeros(s: Seq<char>, width: nat) -> Seq<char> {
    if s.len() >= width {
        s
    } else {
        Seq::new((width - s.len()) as nat, |i: int| '0') + s
    }
}

pub open spec fn hex_field(n: nat, width: nat) -> Seq<char> {
    pad_zeros(hex_text(n), width)
}

/// The hyphenated lower-case text of a UUID held as a 128-bit integer
/// (8-4-4-4-12 hexadecimal digits).
pub open spec fn uuid_text(id: u128) -> Seq<char> {
    let v = id as nat;
    hex_field(v / 0x1_0000_0000_0000_0000_0000_0000, 8) + seq!['-'] + hex_field(
        (v / 0x1_0000_0000_0000_0000_0000) % 0x1_0000,
        4,
    ) + seq!['-'] + hex_field((v / 0x1_0000_0000_0000_0000) % 0x1_0000, 4) + seq!['-']
        + hex_field((v / 0x1_0000_0000_0000) % 0x1_0000, 4) + seq!['-'] + hex_field(
        v % 0x1_0000_0000_0000,
        12,
    )
}

/// The one-character text of hexadecimal digit `d`.
fn digit_text(d: u64) -> (s: &'static str)
    requires
        d < 16,
    ensures
        s@ == seq![hex_char(d as nat)],
        d < 10 ==> s@ == seq![digit_char(d as nat)],
{
    let digits = "0123456789abcdef";
    proof {
        reveal_strlit("0123456789abcdef");
        assert(digits@ =~= seq!['0', '1', '2', '3', '4', '5', '6', '7', '8', '9', 'a', 'b', 'c', 'd', 'e', 'f']);
    }
    let k = d as usize;
    let t = digits.substring_char(k, k + 1);
    assert(t@ =~= seq![digits@[k as int]]);
    t
}

/// The decimal text of a number, as `u64::to_string` writes it.
pub(crate) fn u64_text(n: u64) -> (s: String)
    ensures
        s@ == decimal_text(n as nat),
    decreases n,
{
    let d = digit_text(n % 10);
    if n < 10 {
        String::from_str(d)
    } else {
        let s = u64_text(n / 10).concat(d);
        assert(s@ =~= decimal_text((n / 10) as nat).push(digit_char((n % 10) as nat)));
        s
    }
}

/// The decimal text of a number, as `u32::to_string` writes it.
pub(crate) fn u32_text(n: u32) -> (s: String)
    ensures
        s@ == decimal_text(n as nat),
{
    u64_text(n as u64)
}

/// The lower-case hexadecimal text of a number, without leading zeros.
fn u64_hex(n: u64) -> (s: String)
    ensures
        s@ == hex_text(n as nat),
    decreases n,
{
    let d = digit_text(n % 16);
    if n < 16 {
        String::from_str(d)
    } else {
        let s = u64_hex(n / 16).concat(d);
        assert(s@ =~= hex_text((n / 16) as nat).push(hex_char((n % 16) as nat)));
        s
    }
}

/// Lower-case hexadecimal, zero-padded to `width` characters, as
/// `format!("{:0w$x}", n)` writes it.
fn u64_hex_padded(n: u64, width: usize) -> (s: String)
    ensures
        s@ == hex_field(n as nat, width as nat),
{
    let h = u64_hex(n);
    let len = h.as_str().unicode_len();
    if len >= width {
        return h;
    }
    let zero = "0";
    proof {
        reveal_strlit("0");
    }
    let mut pad = String::new();
    let mut i: usize = 0;
    while i < width - len
        invariant
            len < width,
            i <= width - len,
            zero@ == seq!['0'],
            pad@ == Seq::new(i as nat, |j: int| '0'),
        decreases width - len - i,
    {
        pad = pad.concat(zero);
        i = i + 1;
        assert(pad@ =~= Seq::new(i as nat, |j: int| '0'));
    }
    pad.concat(h.as_str())
}

/// The hyphenated text of a UUID held as a 128-bit integer.
pub fn uuid_string(id: u128) -> (s: String)
    ensures
        s@ == uuid_text(id),
{
    let a = u64_hex_padded((id / 0x1_0000_0000_0000_0000_0000_0000u128) as u64, 8);
    let b = u64_hex_padded(((id / 0x1_0000_0000_0000_0000_0000u128) % 0x1_0000u128) as u64, 4);
    let c = u64_hex_padded(((id / 0x1_0000_0000_0000_0000u128) % 0x1_0000u128) as u64, 4);
    let d = u64_hex_padded(((id / 0x1_0000_0000_0000u128) % 0x1_0000u128) as u64, 4);
    let e = u64_hex_padded((id % 0x1_0000_0000_0000u128) as u64, 12);
    let dash = "-";
    proof {
        reveal_strlit("-");
    }
    let s = a.concat(dash).concat(b.as_str()).concat(dash).concat(c.as_str()).concat(dash).concat(
        d.as_str(),
    ).concat(dash).concat(e.as_str());
    s
}

pub open spec fn is_ascii_digit(c: char) -> bool {
    48 <= (c as u32) <= 57
}

pub open spec fn all_digits(s: Seq<char>) -> bool {
    forall|i: int| 0 <= i < s.len() ==> is_ascii_digit(#[trigger] s[i])
}

/// The number written by a string of decimal digits.
pub open spec fn digits_value(s: Seq<char>) -> nat
    decreases s.len(),
{
    if s.len() == 0 {
        0
    } else {
        digits_value(s.drop_last()) * 10 + ((s.last() as u32) - 48) as nat
    }
}

/// What follows an optional leading '+'.
pub open spec fn unsigned_body(s: Seq<char>) -> Seq<char> {
    if s.len() > 0 && s[0] == '+' {
        s.drop_first()
    } else {
        s
    }
}

/// `str::parse::<u32>`: an optional '+', then one or more decimal digits whose
/// value fits in 32 bits.
pub open spec fn parse_u32_text(s: Seq<char>) -> Option<u32> {
    let body = unsigned_body(s);
    if body.len() == 0 || !all_digits(body) || digits_value(body) > u32::MAX {
        None
    } else {
        Some(digits_value(body) as u32)
    }
}

proof fn lemma_digits_value_prefix(s: Seq<char>, k: int)
    requires
        0 <= k <= s.len(),
        all_digits(s),
    ensures
        digits_value(s.subrange(0, k)) <= digits_value(s),
    decreases s.len(),
{
    if k < s.len() {
        let t = s.drop_last();
        assert(all_digits(t)) by {
            assert forall|i: int| 0 <= i < t.len() implies is_ascii_digit(#[trigger] t[i]) by {
                assert(t[i] == s[i]);
            }
        }
        lemma_digits_value_prefix(t, k);
        assert(t.subrange(0, k) =~= s.subrange(0, k));
        assert(is_ascii_digit(s[s.len() - 1]));
    } else {
        assert(s.subrange(0, k) =~= s);
    }
}

proof fn lemma_digits_value_step(s: Seq<char>, i: int)
    requires
        0 <= i < s.len(),
    ensures
        digits_value(s.subrange(0, i + 1)) == digits_value(s.subrange(0, i)) * 10 + ((s[i] as u32)
            - 48) as nat,
{
    let t = s.subrange(0, i + 1);
    assert(t.drop_last() =~= s.subrange(0, i));
    assert(t.last() == s[i]);
}

/// `str::parse::<u32>`, returning `None` where it returns an error.
pub fn parse_u32(s: &str) -> (r: Option<u32>)
    ensures
        r == parse_u32_text(s@),
{
    let n = s.unicode_len();
    let mut start: usize = 0;
    if n > 0 && s.get_char(0) == '+' {
        start = 1;
    }
    let ghost body = unsigned_body(s@);
    assert(body =~= s@.subrange(start as int, n as int));
    if start == n {
        return None;
    }
    let mut i: usize = start;
    let mut acc: u64 = 0;
    assert(body.subrange(0, 0) =~= Seq::<char>::empty());
    while i < n
        invariant
            start <= i <= n,
            n == s@.len(),
            body == s@.subrange(start as int, n as int),
            body == unsigned_body(s@),
            acc == digits_value(body.subrange(0, i - start)),
            acc <= u32::MAX,
            forall|j: int| 0 <= j < i - start ==> is_ascii_digit(#[trigger] body[j]),
        decreases n - i,
    {
        let c = s.get_char(i);
        let cv = c as u32;
        if cv < 48 || cv > 57 {
            assert(!is_ascii_digit(body[i - start]));
            return None;
        }
        proof {
            lemma_digits_value_step(body, i - start);
        }
        acc = acc * 10 + (cv - 48) as u64;
        if acc > 0xFFFF_FFFFu64 {
            proof {
                if all_digits(body) {
                    lemma_digits_value_prefix(body, i - start + 1);
                }
                assert(unsigned_body(s@) == body);
            }
            return None;
        }
        i = i + 1;
    }
    assert(body.subrange(0, n - start) =~= body);
    assert(all_digits(body));
    Some(acc as u32)
}

proof fn lemma_digit_char(d: nat)
    requires
        d < 10,
    ensures
        digit_char(d) as u32 == d + 48,
{
    let s = seq!['0', '1', '2', '3', '4', '5', '6', '7', '8', '9'];
    assert(s[0] == '0' && s[1] == '1' && s[2] == '2' && s[3] == '3' && s[4] == '4');
    assert(s[5] == '5' && s[6] == '6' && s[7] == '7' && s[8] == '8' && s[9] == '9');
}

proof fn lemma_decimal_text_digits(n: nat)
    ensures
        decimal_text(n).len() > 0,
        all_digits(decimal_text(n)),
        digits_value(decimal_text(n)) == n,
        is_ascii_digit(decimal_text(n)[0]),
    decreases n,
{
    if n >= 10 {
        lemma_decimal_text_digits(n / 10);
        lemma_digit_char(n % 10);
        assert(n == (n / 10) * 10 + n % 10);
        let t = decimal_text(n);
        assert(t.drop_last() =~= decimal_text(n / 10));
        assert(t.last() == digit_char(n % 10));
        assert(digits_value(t) == digits_value(t.drop_last()) * 10 + ((t.last() as u32) - 48) as nat);
        assert(t[0] == decimal_text(n / 10)[0]);
        assert forall|i: int| 0 <= i < t.len() implies is_ascii_digit(#[trigger] t[i]) by {
            if i < t.len() - 1 {
                assert(t[i] == decimal_text(n / 10)[i]);
            }
        }
    } else {
        let t = decimal_text(n);
        lemma_digit_char(n);
        assert(t.drop_last() =~= Seq::<char>::empty());
        assert(digits_value(Seq::<char>::empty()) == 0);
        assert(digits_value(t) == digits_value(t.drop_last()) * 10 + ((t.last() as u32) - 48) as nat);
    }
}

/// Law: parsing the decimal text of a 32-bit number gives the number back,
/// so an NMX-C partition id written out as text is read back unchanged.
pub proof fn lemma_parse_u32_of_decimal(n: u32)
    ensures
        parse_u32_text(decimal_text(n as nat)) == Some(n),
{
    lemma_decimal_text_digits(n as nat);
    let t = decimal_text(n as nat);
    assert(t[0] != '+');
    assert(unsigned_body(t) == t);
}

/// `char::is_whitespace`: the Unicode White_Space property.
pub open spec fn is_white_space(c: char) -> bool {
    let u = c as u32;
    (0x9 <= u <= 0xD) || u == 0x20 || u == 0x85 || u == 0xA0 || u == 0x1680 || (0x2000 <= u
        <= 0x200A) || u == 0x2028 || u == 0x2029 || u == 0x202F || u == 0x205F || u == 0x3000
}

pub open spec fn trim_bounds(s: Seq<char>, a: int, b: int) -> bool {
    &&& 0 <= a <= b <= s.len()
    &&& forall|i: int| 0 <= i < a ==> is_white_space(#[trigger] s[i])
    &&& forall|i: int| b <= i < s.len() ==> is_white_space(#[trigger] s[i])
    &&& a < b ==> !is_white_space(s[a]) && !is_white_space(s[b - 1])
}

/// `str::trim`: `s` without leading and trailing whitespace.
pub open spec fn trim_text(s: Seq<char>) -> Seq<char> {
    let (a, b) = choose|a: int, b: int| trim_bounds(s, a, b);
    s.subrange(a, b)
}

proof fn lemma_trim_bounds_unique(s: Seq<char>, a: int, b: int)
    requires
        trim_bounds(s, a, b),
    ensures
        trim_text(s) == s.subrange(a, b),
{
    let (a2, b2) = choose|a: int, b: int| trim_bounds(s, a, b);
    assert(trim_bounds(s, a2, b2));
    if a < b {
        if a2 < b2 {
            if a2 < a {
                assert(is_white_space(s[a2]));
            }
            if a < a2 {
                assert(is_white_space(s[a]));
            }
            if b2 < b {
                assert(is_white_space(s[b - 1]));
            }
            if b < b2 {
                assert(is_white_space(s[b2 - 1]));
            }
        } else {
            if a < a2 {
                assert(is_white_space(s[a]));
            } else {
                assert(is_white_space(s[a]));
            }
        }
    } else {
        if a2 < b2 {
            if a2 < a {
                assert(is_white_space(s[a2]));
            } else {
                assert(is_white_space(s[a2]));
            }
        }
        assert(s.subrange(a2, b2) =~= s.subrange(a, b));
    }
}

pub fn is_white_space_char(c: char) -> (b: bool)
    ensures
        b == is_white_space(c),
{
    let u = c as u32;
    (0x9 <= u && u <= 0xD) || u == 0x20 || u == 0x85 || u == 0xA0 || u == 0x1680 || (0x2000 <= u
        && u <= 0x200A) || u == 0x2028 || u == 0x2029 || u == 0x202F || u == 0x205F || u == 0x3000
}

/// `str::trim` on an owned copy.
pub fn trim(s: &str) -> (r: String)
    ensures
        r@ == trim_text(s@),
{
    let n = s.unicode_len();
    let mut a: usize = 0;
    while a < n && is_white_space_char(s.get_char(a))
        invariant
            a <= n,
            n == s@.len(),
            forall|i: int| 0 <= i < a ==> is_white_space(#[trigger] s@[i]),
        decreases n - a,
    {
        a = a + 1;
    }
    let mut b: usize = n;
    while b > a && is_white_space_char(s.get_char(b - 1))
        invariant
            a <= b <= n,
            n == s@.len(),
            forall|i: int| b <= i < n ==> is_white_space(#[trigger] s@[i]),
        decreases b,
    {
        b = b - 1;
    }
    proof {
        if a < b {
            assert(!is_white_space(s@[a as int]));
        }
        assert(trim_bounds(s@, a as int, b as int));
        lemma_trim_bounds_unique(s@, a as int, b as int);
    }
    String::from_str(s.substring_char(a, b))
}

pub fn text_equal(a: &str, b: &str) -> (r: bool)
    ensures
        r == (a@ == b@),
{
    let n = a.unicode_len();
    let m = b.unicode_len();
    if n != m {
        return false;
    }
    let mut i: usize = 0;
    while i < n
        invariant
            i <= n,
            n == a@.len(),
            m == b@.len(),
            n == m,
            forall|j: int| 0 <= j < i ==> a@[j] == b@[j],
        decreases n - i,
    {
        if a.get_char(i) != b.get_char(i) {
            return false;
        }
        i = i + 1;
    }
    assert(a@ =~= b@);
    true
}

/// `str::contains` with a string pattern: `needle` occurs in `hay`.
pub open spec fn contains_text(hay: Seq<char>, needle: Seq<char>) -> bool {
    exists|i: int| 0 <= i && i + needle.len() <= hay.len() && #[trigger] hay.subrange(i, i + needle.len()) == needle
}

/// `str::contains` with a string pattern.
pub fn text_contains(hay: &str, needle: &str) -> (b: bool)
    ensures
        b == contains_text(hay@, needle@),
{
    let n = hay.unicode_len();
    let m = needle.unicode_len();
    if m > n {
        proof {
            assert forall|i: int| 0 <= i && i + needle@.len() <= hay@.len() implies #[trigger] hay@.subrange(i, i + needle@.len()) != needle@ by {}
        }
        return false;
    }
    if m == 0 {
        assert(hay@.subrange(0, 0) =~= needle@);
        assert(hay@.subrange(0int, 0int + needle@.len()) == needle@);
        return true;
    }
    let mut i: usize = 0;
    while i <= n - m
        invariant
            n == hay@.len(),
            m == needle@.len(),
            1 <= m <= n,
            i <= n - m + 1,
            forall|k: int| 0 <= k < i ==> #[trigger] hay@.subrange(k, k + m) != needle@,
        decreases n - m + 1 - i,
    {
        let mut j: usize = 0;
        let mut same = true;
        while j < m
            invariant
                n == hay@.len(),
                m == needle@.len(),
                i + m <= n,
                j <= m,
                same ==> forall|t: int| 0 <= t < j ==> hay@[i + t] == needle@[t],
                !same ==> hay@.subrange(i as int, i + m) != needle@,
            decreases m - j,
        {
            if same && hay.get_char(i + j) != needle.get_char(j) {
                same = false;
                assert(hay@.subrange(i as int, i + m)[j as int] != needle@[j as int]);
            }
            j = j + 1;
        }
        if same {
            assert(hay@.subrange(i as int, i + m) =~= needle@);
            assert(hay@.subrange(i as int, i + needle@.len()) == needle@);
            return true;
        }
        i = i + 1;
    }
    proof {
        assert forall|k: int| 0 <= k && k + needle@.len() <= hay@.len() implies #[trigger] hay@.subrange(k, k + needle@.len()) != needle@ by {
            assert(k < i);
        }
    }
    false
}

} // verus!
