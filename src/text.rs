//! Character-level helpers over strings, stated over their `Seq<char>` views.
use vstd::prelude::*;
use vstd::utf8::{encode_scalar, encode_utf8};

verus! {

/// What `char::is_control` decides: the general category Cc, that is
/// U+0000..=U+001F and U+007F..=U+009F.
pub open spec fn is_control_spec(c: char) -> bool {
    (c as u32) <= 0x1f || (0x7f <= (c as u32) && (c as u32) <= 0x9f)
}

/// What `char::is_whitespace` decides: the Unicode White_Space property.
pub open spec fn is_whitespace_spec(c: char) -> bool {
    let u = c as u32;
    (0x09 <= u && u <= 0x0d) || u == 0x20 || u == 0x85 || u == 0xa0 || u == 0x1680 || (0x2000
        <= u && u <= 0x200a) || u == 0x2028 || u == 0x2029 || u == 0x202f || u == 0x205f || u
        == 0x3000
}

pub fn is_control(c: char) -> (r: bool)
    ensures
        r == is_control_spec(c),
{
    let u = c as u32;
    u <= 0x1f || (0x7f <= u && u <= 0x9f)
}

pub fn is_whitespace(c: char) -> (r: bool)
    ensures
        r == is_whitespace_spec(c),
{
    let u = c as u32;
    (0x09 <= u && u <= 0x0d) || u == 0x20 || u == 0x85 || u == 0xa0 || u == 0x1680 || (0x2000
        <= u && u <= 0x200a) || u == 0x2028 || u == 0x2029 || u == 0x202f || u == 0x205f || u
        == 0x3000
}

/// `s` holds two consecutive dots somewhere.
pub open spec fn has_dot_dot(s: Seq<char>) -> bool {
    exists|i: int| 0 <= i && i + 1 < s.len() && #[trigger] s[i] == '.' && s[i + 1] == '.'
}

/// `s` holds a control character (NUL included).
pub open spec fn has_control(s: Seq<char>) -> bool {
    exists|i: int| 0 <= i < s.len() && is_control_spec(s[i])
}

/// `s` starts with `/`.
pub open spec fn is_absolute(s: Seq<char>) -> bool {
    s.len() > 0 && s[0] == '/'
}

/// A file name that stays below the working directory and holds only printable text.
pub open spec fn filename_ok(s: Seq<char>) -> bool {
    !has_dot_dot(s) && !is_absolute(s) && !has_control(s)
}

/// Index of the first character that is not whitespace, or the length when there is none.
pub open spec fn trim_start(s: Seq<char>) -> int
    decreases s.len(),
{
    if s.len() == 0 {
        0
    } else if !is_whitespace_spec(s[0]) {
        0
    } else {
        1 + trim_start(s.drop_first())
    }
}

/// One past the last character that is not whitespace, or 0 when there is none.
pub open spec fn trim_end(s: Seq<char>) -> int
    decreases s.len(),
{
    if s.len() == 0 {
        0
    } else if !is_whitespace_spec(s.last()) {
        s.len() as int
    } else {
        trim_end(s.drop_last())
    }
}

/// `s` with leading and trailing whitespace removed, as `str::trim` does.
pub open spec fn trimmed(s: Seq<char>) -> Seq<char> {
    if trim_start(s) < trim_end(s) {
        s.subrange(trim_start(s), trim_end(s))
    } else {
        Seq::empty()
    }
}

proof fn lemma_trim_start(s: Seq<char>)
    ensures
        0 <= trim_start(s) <= s.len(),
        forall|i: int| 0 <= i < trim_start(s) ==> is_whitespace_spec(#[trigger] s[i]),
        trim_start(s) < s.len() ==> !is_whitespace_spec(s[trim_start(s)]),
    decreases s.len(),
{
    if s.len() > 0 && is_whitespace_spec(s[0]) {
        lemma_trim_start(s.drop_first());
        assert forall|i: int| 0 <= i < trim_start(s) implies is_whitespace_spec(#[trigger] s[i]) by {
            if i > 0 {
                assert(s[i] == s.drop_first()[i - 1]);
            }
        }
    }
}

proof fn lemma_trim_end(s: Seq<char>)
    ensures
        0 <= trim_end(s) <= s.len(),
        forall|i: int| trim_end(s) <= i < s.len() ==> is_whitespace_spec(#[trigger] s[i]),
        trim_end(s) > 0 ==> !is_whitespace_spec(s[trim_end(s) - 1]),
    decreases s.len(),
{
    if s.len() > 0 && is_whitespace_spec(s.last()) {
        lemma_trim_end(s.drop_last());
        assert forall|i: int| trim_end(s) <= i < s.len() implies is_whitespace_spec(#[trigger] s[i]) by {
            if i < s.len() - 1 {
                assert(s[i] == s.drop_last()[i]);
            }
        }
    }
}

/// The characters of `s` and the bounds of its trimmed part.
fn trim_bounds(s: &str) -> (r: (Vec<char>, usize, usize))
    ensures
        r.0@ == s@,
        r.1 <= r.2 <= r.0.len(),
        trimmed(s@) == s@.subrange(r.1 as int, r.2 as int),
{
    let cs = chars_of(s);
    let n = cs.len();
    let mut a: usize = 0;
    while a < n && is_whitespace(cs[a])
        invariant
            cs@ == s@,
            n == cs.len(),
            a <= n,
            forall|i: int| 0 <= i < a ==> is_whitespace_spec(#[trigger] cs@[i]),
        decreases n - a,
    {
        a = a + 1;
    }
    let mut b: usize = n;
    while b > a && is_whitespace(cs[b - 1])
        invariant
            cs@ == s@,
            n == cs.len(),
            a <= b <= n,
            forall|i: int| b <= i < n ==> is_whitespace_spec(#[trigger] cs@[i]),
        decreases b,
    {
        b = b - 1;
    }
    proof {
        lemma_trim_start(s@);
        lemma_trim_end(s@);
        if a < n {
            assert(trim_start(s@) == a);
        } else {
            assert(trim_start(s@) == n);
        }
        if b > a {
            assert(trim_end(s@) == b);
        } else {
            assert(trim_end(s@) <= a);
            assert(s@.subrange(a as int, b as int) =~= Seq::<char>::empty());
        }
    }
    (cs, a, b)
}

/// Number of characters of `s` once trimmed.
pub fn trimmed_len(s: &str) -> (r: usize)
    ensures
        r == trimmed(s@).len(),
{
    let (_cs, a, b) = trim_bounds(s);
    b - a
}

/// Number of bytes of the UTF-8 encoding of one character.
pub fn utf8_width(c: char) -> (r: usize)
    ensures
        r == encode_scalar(c as u32).len(),
        1 <= r <= 4,
{
    let u = c as u32;
    if u <= 0x7f {
        1
    } else if u <= 0x7ff {
        2
    } else if u <= 0xffff && !(0xd800 <= u && u <= 0xdfff) {
        3
    } else {
        4
    }
}

proof fn lemma_encode_push(s: Seq<char>, c: char)
    ensures
        encode_utf8(s.push(c)).len() == encode_utf8(s).len() + encode_scalar(c as u32).len(),
    decreases s.len(),
{
    let t = s.push(c);
    if s.len() == 0 {
        assert(t.drop_first() =~= Seq::<char>::empty());
        assert(encode_utf8(Seq::<char>::empty()) =~= Seq::<u8>::empty());
        assert(encode_utf8(t) == encode_scalar(t[0] as u32) + encode_utf8(t.drop_first()));
        assert(encode_utf8(s) =~= Seq::<u8>::empty());
    } else {
        assert(t.drop_first() =~= s.drop_first().push(c));
        lemma_encode_push(s.drop_first(), c);
        assert(t[0] == s[0]);
        assert(encode_utf8(t) == encode_scalar(t[0] as u32) + encode_utf8(t.drop_first()));
        assert(encode_utf8(s) == encode_scalar(s[0] as u32) + encode_utf8(s.drop_first()));
    }
}

/// Whether the UTF-8 encoding of `cs[a..b]` is longer than `limit` bytes.
fn range_bytes_exceed(cs: &Vec<char>, a: usize, b: usize, limit: usize) -> (r: bool)
    requires
        a <= b <= cs.len(),
    ensures
        r == (encode_utf8(cs@.subrange(a as int, b as int)).len() > limit),
{
    let mut total: usize = 0;
    let mut i: usize = a;
    proof {
        assert(cs@.subrange(a as int, a as int) =~= Seq::<char>::empty());
    }
    while i < b
        invariant
            a <= i <= b <= cs.len(),
            total <= limit,
            total == encode_utf8(cs@.subrange(a as int, i as int)).len(),
        decreases b - i,
    {
        proof {
            assert(cs@.subrange(a as int, i + 1) =~= cs@.subrange(a as int, i as int).push(cs@[i as int]));
            lemma_encode_push(cs@.subrange(a as int, i as int), cs@[i as int]);
        }
        let w = utf8_width(cs[i]);
        i = i + 1;
        if w > limit - total {
            proof {
                let whole = cs@.subrange(a as int, b as int);
                lemma_encode_prefix_le(whole, (i - a) as int);
                assert(whole.subrange(0, (i - a) as int) =~= cs@.subrange(a as int, i as int));
            }
            return true;
        }
        total = total + w;
    }
    false
}

/// Whether the UTF-8 encoding of `s`, once trimmed, is longer than `limit` bytes: what
/// `str::len` of `str::trim` compares.
pub fn trimmed_bytes_exceed(s: &str, limit: usize) -> (r: bool)
    ensures
        r == (encode_utf8(trimmed(s@)).len() > limit),
{
    let (cs, a, b) = trim_bounds(s);
    range_bytes_exceed(&cs, a, b, limit)
}

/// Whether the UTF-8 encoding of `s` is longer than `limit` bytes: what `str::len` compares.
pub fn bytes_exceed(s: &str, limit: usize) -> (r: bool)
    ensures
        r == (encode_utf8(s@).len() > limit),
{
    let cs = chars_of(s);
    proof {
        assert(cs@.subrange(0, cs.len() as int) =~= s@);
    }
    range_bytes_exceed(&cs, 0, cs.len(), limit)
}

proof fn lemma_encode_prefix_le(s: Seq<char>, k: int)
    requires
        0 <= k <= s.len(),
    ensures
        encode_utf8(s.subrange(0, k)).len() <= encode_utf8(s).len(),
    decreases s.len() - k,
{
    if k < s.len() {
        lemma_encode_prefix_le(s, k + 1);
        assert(s.subrange(0, k + 1) =~= s.subrange(0, k).push(s[k]));
        lemma_encode_push(s.subrange(0, k), s[k]);
    } else {
        assert(s.subrange(0, k) =~= s);
    }
}

/// The character of a decimal digit.
pub open spec fn digit_char(d: nat) -> char {
    if d == 0 { '0' } else if d == 1 { '1' } else if d == 2 { '2' } else if d == 3 { '3' }
    else if d == 4 { '4' } else if d == 5 { '5' } else if d == 6 { '6' } else if d == 7 { '7' }
    else if d == 8 { '8' } else { '9' }
}

/// Decimal notation of `n`, without leading zeros.
pub open spec fn decimal_spec(n: nat) -> Seq<char>
    decreases n,
{
    if n < 10 {
        seq![digit_char(n)]
    } else {
        decimal_spec(n / 10).push(digit_char(n % 10))
    }
}

fn digit_str(d: u64) -> (r: &'static str)
    requires
        d < 10,
    ensures
        r@ == seq![digit_char(d as nat)],
{
    proof {
        reveal_strlit("0");
        reveal_strlit("1");
        reveal_strlit("2");
        reveal_strlit("3");
        reveal_strlit("4");
        reveal_strlit("5");
        reveal_strlit("6");
        reveal_strlit("7");
        reveal_strlit("8");
        reveal_strlit("9");
    }
    if d == 0 { "0" } else if d == 1 { "1" } else if d == 2 { "2" } else if d == 3 { "3" }
    else if d == 4 { "4" } else if d == 5 { "5" } else if d == 6 { "6" } else if d == 7 { "7" }
    else if d == 8 { "8" } else { "9" }
}

/// Decimal notation of `n`.
pub fn decimal(n: u64) -> (r: String)
    ensures
        r@ == decimal_spec(n as nat),
    decreases n,
{
    if n < 10 {
        owned(digit_str(n))
    } else {
        let head = decimal(n / 10);
        let r = joined(head.as_str(), digit_str(n % 10));
        proof {
            assert(r@ =~= decimal_spec(n as nat));
        }
        r
    }
}

/// The characters of `s`, in order.
pub fn chars_of(s: &str) -> (r: Vec<char>)
    ensures
        r@ == s@,
{
    let mut r: Vec<char> = Vec::new();
    for c in it: s.chars()
        invariant
            r@ == it.seq().subrange(0, it.index() as int),
    {
        r.push(c);
    }
    r
}

/// A `String` holding the characters of `s`.
pub fn owned(s: &str) -> (r: String)
    ensures
        r@ == s@,
{
    s.to_owned()
}

/// `a` followed by `b`.
pub fn joined(a: &str, b: &str) -> (r: String)
    ensures
        r@ == a@ + b@,
{
    let mut r = a.to_owned();
    r.append(b);
    r
}

/// Whether `s` is a file name that [`filename_ok`] accepts.
pub fn check_filename(s: &str) -> (r: bool)
    ensures
        r == filename_ok(s@),
{
    let cs = chars_of(s);
    let n = cs.len();
    if n > 0 && cs[0] == '/' {
        return false;
    }
    let mut i: usize = 0;
    while i < n
        invariant
            cs@ == s@,
            n == cs.len(),
            i <= n,
            forall|j: int| 0 <= j < i ==> !is_control_spec(#[trigger] cs@[j]),
            forall|j: int| 0 <= j < i && j + 1 < n ==> !(cs@[j] == '.' && #[trigger] cs@[j + 1] == '.'),
        decreases n - i,
    {
        if is_control(cs[i]) {
            return false;
        }
        if i + 1 < n && cs[i] == '.' && cs[i + 1] == '.' {
            return false;
        }
        i = i + 1;
    }
    proof {
        assert(!has_dot_dot(s@)) by {
            if has_dot_dot(s@) {
                let k = choose|k: int| 0 <= k && k + 1 < s@.len() && #[trigger] s@[k] == '.' && s@[k + 1] == '.';
                assert(!(cs@[k] == '.' && cs@[k + 1] == '.'));
            }
        }
    }
    true
}

} // verus!
