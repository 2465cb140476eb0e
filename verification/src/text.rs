//! Words for an operator: numbers written out in decimal, for the messages a
//! refused patch or sequence is explained with.
use vstd::prelude::*;
use vstd::string::{StrSliceExecFns, StringExecFns};

verus! {

/// The character of one decimal digit.
pub open spec fn digit_char(d: nat) -> char {
    if d == 0 {
        '0'
    } else if d == 1 {
        '1'
    } else if d == 2 {
        '2'
    } else if d == 3 {
        '3'
    } else if d == 4 {
        '4'
    } else if d == 5 {
        '5'
    } else if d == 6 {
        '6'
    } else if d == 7 {
        '7'
    } else if d == 8 {
        '8'
    } else {
        '9'
    }
}

/// A number written in decimal, without leading zeros.
pub open spec fn decimal(n: nat) -> Seq<char>
    decreases n,
{
    if n < 10 {
        seq![digit_char(n)]
    } else {
        decimal(n / 10).push(digit_char(n % 10))
    }
}

fn digit_text(d: u64) -> (r: &'static str)
    requires
        d < 10,
    ensures
        r@ == seq![digit_char(d as nat)],
{
    if d == 0 {
        proof { reveal_strlit("0"); }
        "0"
    } else if d == 1 {
        proof { reveal_strlit("1"); }
        "1"
    } else if d == 2 {
        proof { reveal_strlit("2"); }
        "2"
    } else if d == 3 {
        proof { reveal_strlit("3"); }
        "3"
    } else if d == 4 {
        proof { reveal_strlit("4"); }
        "4"
    } else if d == 5 {
        proof { reveal_strlit("5"); }
        "5"
    } else if d == 6 {
        proof { reveal_strlit("6"); }
        "6"
    } else if d == 7 {
        proof { reveal_strlit("7"); }
        "7"
    } else if d == 8 {
        proof { reveal_strlit("8"); }
        "8"
    } else {
        proof { reveal_strlit("9"); }
        "9"
    }
}

/// Appends `n` in decimal.
pub fn push_decimal(text: &mut String, n: u64)
    ensures
        final(text)@ == old(text)@ + decimal(n as nat),
    decreases n,
{
    if n >= 10 {
        push_decimal(text, n / 10);
    }
    let d = digit_text(n % 10);
    text.append(d);
    proof {
        if n >= 10 {
            assert(decimal(n as nat) == decimal((n / 10) as nat).push(digit_char((n % 10) as nat)));
        }
    }
    assert(final(text)@ =~= old(text)@ + decimal(n as nat));
}

/// A string holding exactly `words`.
pub fn text_of(words: &str) -> (r: String)
    ensures
        r@ == words@,
{
    String::from_str(words)
}

/// Whether a character is white space as Unicode's `White_Space` property
/// has it, which is what `char::is_whitespace` tests.
pub open spec fn is_white_space(c: char) -> bool {
    let u = c as u32;
    ||| 0x09 <= u <= 0x0D
    ||| u == 0x20
    ||| u == 0x85
    ||| u == 0xA0
    ||| u == 0x1680
    ||| 0x2000 <= u <= 0x200A
    ||| u == 0x2028
    ||| u == 0x2029
    ||| u == 0x202F
    ||| u == 0x205F
    ||| u == 0x3000
}

/// See [`is_white_space`].
pub fn white_space(c: char) -> (r: bool)
    ensures
        r == is_white_space(c),
{
    let u = c as u32;
    (0x09 <= u && u <= 0x0D) || u == 0x20 || u == 0x85 || u == 0xA0 || u == 0x1680 || (0x2000 <= u
        && u <= 0x200A) || u == 0x2028 || u == 0x2029 || u == 0x202F || u == 0x205F || u == 0x3000
}

/// How many characters of `s` are white space before the first that is not.
pub open spec fn leading_space(s: Seq<char>) -> nat
    decreases s.len(),
{
    if s.len() > 0 && is_white_space(s[0]) {
        1 + leading_space(s.drop_first())
    } else {
        0
    }
}

/// How many characters of `s` are white space after the last that is not.
pub open spec fn trailing_space(s: Seq<char>) -> nat
    decreases s.len(),
{
    if s.len() > 0 && is_white_space(s.last()) {
        1 + trailing_space(s.drop_last())
    } else {
        0
    }
}

/// A text without the white space at either end.
pub open spec fn trim(s: Seq<char>) -> Seq<char> {
    let t = s.skip(leading_space(s) as int);
    t.take(t.len() - trailing_space(t))
}

proof fn lemma_leading_space(s: Seq<char>, i: int)
    requires
        0 <= i <= s.len(),
        forall|k: int| 0 <= k < i ==> is_white_space(#[trigger] s[k]),
        i == s.len() || !is_white_space(s[i]),
    ensures
        leading_space(s) == i,
    decreases s.len(),
{
    if i > 0 {
        let t = s.drop_first();
        assert forall|k: int| 0 <= k < i - 1 implies is_white_space(#[trigger] t[k]) by {
            assert(t[k] == s[k + 1]);
        }
        if i - 1 < t.len() {
            assert(t[i - 1] == s[i]);
        }
        lemma_leading_space(t, i - 1);
    }
}

proof fn lemma_trailing_space(s: Seq<char>, j: int)
    requires
        0 <= j <= s.len(),
        forall|k: int| j <= k < s.len() ==> is_white_space(#[trigger] s[k]),
        j == 0 || !is_white_space(s[j - 1]),
    ensures
        trailing_space(s) == s.len() - j,
    decreases s.len(),
{
    if j < s.len() {
        let t = s.drop_last();
        assert forall|k: int| j <= k < t.len() implies is_white_space(#[trigger] t[k]) by {
            assert(t[k] == s[k]);
        }
        if j > 0 {
            assert(t[j - 1] == s[j - 1]);
        }
        lemma_trailing_space(t, j);
    }
}

/// Where the text of `s` starts and ends once the white space at either end
/// is set aside.
pub fn trimmed_bounds(s: &str) -> (r: (usize, usize))
    ensures
        r.0 <= r.1 <= s@.len(),
        s@.subrange(r.0 as int, r.1 as int) == trim(s@),
{
    let n = s.unicode_len();
    let mut a: usize = 0;
    while a < n && white_space(s.get_char(a))
        invariant
            0 <= a <= n,
            n == s@.len(),
            forall|k: int| 0 <= k < a ==> is_white_space(#[trigger] s@[k]),
        decreases n - a,
    {
        a = a + 1;
    }
    let mut b: usize = n;
    while b > a && white_space(s.get_char(b - 1))
        invariant
            a <= b <= n,
            n == s@.len(),
            forall|k: int| b <= k < n ==> is_white_space(#[trigger] s@[k]),
        decreases b - a,
    {
        b = b - 1;
    }
    proof {
        lemma_leading_space(s@, a as int);
        let t = s@.skip(a as int);
        assert forall|k: int| b - a <= k < t.len() implies is_white_space(#[trigger] t[k]) by {
            assert(t[k] == s@[k + a]);
        }
        if b > a {
            assert(t[b - a - 1] == s@[b - 1]);
        }
        lemma_trailing_space(t, (b - a) as int);
        assert(s@.subrange(a as int, b as int) =~= t.take(t.len() - trailing_space(t)));
    }
    (a, b)
}

/// Whether two texts are the same once the white space at either end of each
/// is set aside.
pub fn same_trimmed(left: &str, right: &str) -> (r: bool)
    ensures
        r == (trim(left@) == trim(right@)),
{
    let (la, lb) = trimmed_bounds(left);
    let (ra, rb) = trimmed_bounds(right);
    if lb - la != rb - ra {
        proof {
            assert(trim(left@).len() != trim(right@).len());
        }
        return false;
    }
    let ghost lt = left@.subrange(la as int, lb as int);
    let ghost rt = right@.subrange(ra as int, rb as int);
    let mut k: usize = 0;
    while k < lb - la
        invariant
            la <= lb <= left@.len(),
            ra <= rb <= right@.len(),
            lb - la == rb - ra,
            lt == left@.subrange(la as int, lb as int),
            rt == right@.subrange(ra as int, rb as int),
            lt == trim(left@),
            rt == trim(right@),
            0 <= k <= lb - la,
            forall|j: int| 0 <= j < k ==> #[trigger] lt[j] == rt[j],
        decreases lb - la - k,
    {
        let lc = left.get_char(la + k);
        let rc = right.get_char(ra + k);
        proof {
            assert(lt[k as int] == lc);
            assert(rt[k as int] == rc);
        }
        if lc != rc {
            proof {
                assert(lt[k as int] != rt[k as int]);
            }
            return false;
        }
        k = k + 1;
    }
    proof {
        assert(lt =~= rt);
    }
    true
}

/// Whether two texts are the same, character for character.
pub fn same_text(left: &str, right: &str) -> (r: bool)
    ensures
        r == (left@ == right@),
{
    let n = left.unicode_len();
    if n != right.unicode_len() {
        return false;
    }
    let mut k: usize = 0;
    while k < n
        invariant
            0 <= k <= n,
            n == left@.len(),
            n == right@.len(),
            forall|j: int| 0 <= j < k ==> #[trigger] left@[j] == right@[j],
        decreases n - k,
    {
        if left.get_char(k) != right.get_char(k) {
            return false;
        }
        k = k + 1;
    }
    proof {
        assert(left@ =~= right@);
    }
    true
}

/// What is left of `text` after `prefix`, if it starts with it.
pub fn strip_prefix<'a>(text: &'a str, prefix: &str) -> (r: Option<&'a str>)
    ensures
        match r {
            Some(rest) => text@ == prefix@ + rest@,
            None => !(prefix@.len() <= text@.len() && text@.subrange(0, prefix@.len() as int) == prefix@),
        },
{
    let n = prefix.unicode_len();
    let total = text.unicode_len();
    if n > total {
        return None;
    }
    let head = text.substring_char(0, n);
    if !same_text(head, prefix) {
        return None;
    }
    let rest = text.substring_char(n, total);
    proof {
        assert(text@ =~= prefix@ + rest@);
    }
    Some(rest)
}

} // verus!
