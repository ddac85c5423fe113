//! Text: the order of strings by their bytes, and the few renderings the library needs.
use vstd::prelude::*;
use vstd::string::StrSliceExecFns;
use vstd::string::StringExecFns;
use vstd::utf8::encode_utf8;

verus! {

broadcast use vstd::string::group_string_axioms;

/// Whether `a` comes before `b` in lexicographic order.
pub open spec fn before(a: Seq<u8>, b: Seq<u8>) -> bool
    decreases a.len(),
{
    if b.len() == 0 {
        false
    } else if a.len() == 0 {
        true
    } else if a[0] != b[0] {
        a[0] < b[0]
    } else {
        before(a.drop_first(), b.drop_first())
    }
}

/// The order of texts: that of their UTF-8 bytes.
pub open spec fn text_before(a: Seq<char>, b: Seq<char>) -> bool {
    before(encode_utf8(a), encode_utf8(b))
}

/// Nothing comes before itself.
pub proof fn lemma_before_irreflexive(a: Seq<u8>)
    ensures
        !before(a, a),
    decreases a.len(),
{
    if a.len() > 0 {
        lemma_before_irreflexive(a.drop_first());
    }
}

/// What comes before something that comes before a third comes before the third.
pub proof fn lemma_before_transitive(a: Seq<u8>, b: Seq<u8>, c: Seq<u8>)
    requires
        before(a, b),
        before(b, c),
    ensures
        before(a, c),
    decreases a.len(),
{
    if a.len() > 0 && a[0] == b[0] && b[0] == c[0] {
        lemma_before_transitive(a.drop_first(), b.drop_first(), c.drop_first());
    }
}

/// Two texts with the same bytes are the same text.
pub proof fn lemma_same_bytes(a: Seq<char>, b: Seq<char>)
    requires
        encode_utf8(a) == encode_utf8(b),
    ensures
        a == b,
{
    vstd::utf8::encode_utf8_decode_utf8(a);
    vstd::utf8::encode_utf8_decode_utf8(b);
}

/// Where one text stands against another.
#[derive(Clone, Copy, PartialEq, Eq, Debug, Structural)]
pub enum Rank {
    Before,
    Same,
    After,
}

/// Ranks `a` against `b`.
pub fn rank(a: &str, b: &str) -> (r: Rank)
    ensures
        match r {
            Rank::Before => text_before(a@, b@),
            Rank::Same => a@ == b@,
            Rank::After => text_before(b@, a@),
        },
{
    let x = a.as_bytes();
    let y = b.as_bytes();
    let mut i: usize = 0;
    assert(x@.skip(0) == x@);
    assert(y@.skip(0) == y@);
    while i < x.len() && i < y.len()
        invariant
            i <= x@.len(),
            i <= y@.len(),
            x@.take(i as int) == y@.take(i as int),
            before(x@, y@) == before(x@.skip(i as int), y@.skip(i as int)),
            before(y@, x@) == before(y@.skip(i as int), x@.skip(i as int)),
            x@ == encode_utf8(a@),
            y@ == encode_utf8(b@),
        decreases x@.len() - i,
    {
        if x[i] < y[i] {
            return Rank::Before;
        }
        if y[i] < x[i] {
            return Rank::After;
        }
        assert(x@.skip(i as int).drop_first() == x@.skip(i + 1));
        assert(y@.skip(i as int).drop_first() == y@.skip(i + 1));
        assert(x@.take(i + 1) == x@.take(i as int).push(x@[i as int]));
        assert(y@.take(i + 1) == y@.take(i as int).push(y@[i as int]));
        i = i + 1;
    }
    if i < y.len() {
        Rank::Before
    } else if i < x.len() {
        Rank::After
    } else {
        proof {
            assert(x@.take(i as int) == x@);
            assert(y@.take(i as int) == y@);
            lemma_same_bytes(a@, b@);
        }
        Rank::Same
    }
}

/// Whether two texts are the same.
pub fn same(a: &str, b: &str) -> (r: bool)
    ensures
        r == (a@ == b@),
{
    match rank(a, b) {
        Rank::Same => true,
        Rank::Before => {
            proof {
                lemma_before_irreflexive(encode_utf8(a@));
            }
            false
        },
        Rank::After => {
            proof {
                lemma_before_irreflexive(encode_utf8(a@));
            }
            false
        },
    }
}

/// `s` without the slashes it ends in.
pub open spec fn without_trailing_slashes(s: Seq<char>) -> Seq<char>
    decreases s.len(),
{
    if s.len() > 0 && s.last() == '/' {
        without_trailing_slashes(s.drop_last())
    } else {
        s
    }
}

/// Cuts the slashes that `s` ends in.
pub fn trim_slashes(s: &str) -> (r: String)
    ensures
        r@ == without_trailing_slashes(s@),
{
    let mut n: usize = s.unicode_len();
    assert(s@.take(n as int) == s@);
    while n > 0 && s.get_char(n - 1) == '/'
        invariant
            n <= s@.len(),
            without_trailing_slashes(s@) == without_trailing_slashes(s@.take(n as int)),
        decreases n,
    {
        assert(s@.take(n as int).drop_last() == s@.take(n - 1));
        n = n - 1;
    }
    let kept = s.substring_char(0, n);
    assert(kept@ == s@.take(n as int));
    kept.to_owned()
}

/// The decimal digit of `d`.
pub open spec fn digit(d: nat) -> char {
    "0123456789"@[d as int]
}

/// The decimal digits of `n`, most significant first, without leading zeros.
pub open spec fn digits(n: nat) -> Seq<char>
    decreases n,
{
    if n < 10 {
        seq![digit(n)]
    } else {
        digits(n / 10).push(digit(n % 10))
    }
}

/// The decimal text of `n`.
pub open spec fn decimal(n: int) -> Seq<char> {
    if n < 0 {
        "-"@ + digits((-n) as nat)
    } else {
        digits(n as nat)
    }
}

fn natural_text(n: u128) -> (r: String)
    ensures
        r@ == digits(n as nat),
    decreases n,
{
    proof {
        reveal_strlit("0123456789");
    }
    if n < 10 {
        let d: usize = n as usize;
        let c = "0123456789".substring_char(d, d + 1);
        assert(c@ =~= seq![digit(n as nat)]);
        c.to_owned()
    } else {
        let mut head = natural_text(n / 10);
        let d: usize = (n % 10) as usize;
        let c = "0123456789".substring_char(d, d + 1);
        assert(c@ =~= seq![digit((n % 10) as nat)]);
        head.append(c);
        assert(head@ =~= digits(n as nat));
        head
    }
}

/// The decimal text of `n`.
pub fn decimal_text(n: i128) -> (r: String)
    ensures
        r@ == decimal(n as int),
{
    if n < 0 {
        let mut s = "-".to_owned();
        let below: i128 = -(n + 1);
        let size: u128 = below as u128 + 1;
        let rest = natural_text(size);
        s.append(rest.as_str());
        s
    } else {
        natural_text(n as u128)
    }
}

/// The number that a decimal digit stands for.
pub open spec fn digit_value(c: char) -> int {
    c as int - '0' as int
}

/// The number that a row of decimal digits stands for.
pub open spec fn digits_value(s: Seq<char>) -> int
    decreases s.len(),
{
    if s.len() == 0 {
        0
    } else {
        10 * digits_value(s.drop_last()) + digit_value(s.last())
    }
}

/// The number that a decimal text stands for: a row of digits, or a minus sign and one.
pub open spec fn decimal_value(s: Seq<char>) -> int {
    if s.len() > 0 && s[0] == '-' {
        -digits_value(s.drop_first())
    } else {
        digits_value(s)
    }
}

proof fn lemma_digits_parse_back(n: nat)
    ensures
        digits_value(digits(n)) == n,
        digits(n).len() > 0,
        digits(n)[0] != '-',
    decreases n,
{
    reveal_strlit("0123456789");
    reveal_with_fuel(digits_value, 2);
    if n < 10 {
        assert(digits(n).drop_last() =~= Seq::<char>::empty());
    } else {
        lemma_digits_parse_back(n / 10);
        assert(digits(n).drop_last() =~= digits(n / 10));
        assert(digits(n)[0] == digits(n / 10)[0]);
    }
}

/// An integer carried as its decimal text is read back from that text unchanged.
pub proof fn decimal_parses_back(n: int)
    ensures
        decimal_value(decimal(n)) == n,
{
    if n < 0 {
        reveal_strlit("-");
        lemma_digits_parse_back((-n) as nat);
        assert(decimal(n).drop_first() =~= digits((-n) as nat));
    } else {
        lemma_digits_parse_back(n as nat);
    }
}

/// A decimal text is a minus sign where the number is negative, and then digits of which the
/// first is 0 only where it is the only one.
pub proof fn a_decimal_text_is_plain(n: int)
    ensures
        ({
            let t = decimal(n);
            let from: int = if n < 0 {
                1
            } else {
                0
            };
            &&& t.len() > from
            &&& n < 0 ==> t[0] == '-'
            &&& forall|i: int| from <= i < t.len() ==> '0' <= #[trigger] t[i] <= '9'
            &&& t[from] == '0' ==> n == 0 && t.len() == 1
        }),
{
    if n < 0 {
        reveal_strlit("-");
        lemma_digits_are_plain((-n) as nat);
        let t = decimal(n);
        assert forall|i: int| 1 <= i < t.len() implies '0' <= #[trigger] t[i] <= '9' by {
            assert(t[i] == digits((-n) as nat)[i - 1]);
        }
        assert(t[1] == digits((-n) as nat)[0]);
    } else {
        lemma_digits_are_plain(n as nat);
    }
}

proof fn lemma_digits_are_plain(n: nat)
    ensures
        digits(n).len() > 0,
        forall|i: int| 0 <= i < digits(n).len() ==> '0' <= #[trigger] digits(n)[i] <= '9',
        digits(n)[0] == '0' ==> n == 0 && digits(n).len() == 1,
    decreases n,
{
    reveal_strlit("0123456789");
    if n >= 10 {
        lemma_digits_are_plain(n / 10);
        assert(digits(n)[0] == digits(n / 10)[0]);
    }
}

/// Of two rows of bytes the one comes first that is less where they first differ, or that ends
/// there.
pub proof fn the_first_difference_decides(a: Seq<u8>, b: Seq<u8>, i: int)
    requires
        0 <= i <= a.len(),
        i <= b.len(),
        a.take(i) == b.take(i),
        i < a.len() && i < b.len() ==> a[i] != b[i],
    ensures
        i < a.len() && i < b.len() ==> (before(a, b) <==> a[i] < b[i]),
        i == a.len() && i < b.len() ==> before(a, b),
        i == b.len() ==> !before(a, b),
    decreases i,
{
    if i > 0 {
        assert(a[0] == a.take(i)[0] && b[0] == b.take(i)[0]);
        assert(a.drop_first().take(i - 1) =~= a.take(i).drop_first());
        assert(b.drop_first().take(i - 1) =~= b.take(i).drop_first());
        the_first_difference_decides(a.drop_first(), b.drop_first(), i - 1);
    }
}

} // verus!
