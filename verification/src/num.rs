//! Decimal numerals: the canonical digit string of a non-negative integer,
//! its value, and verified rendering and parsing of whole numeric fields.

use vstd::prelude::*;
use vstd::string::StrSliceExecFns;
use vstd::string::StringExecFns;

verus! {

pub open spec fn spec_digit_char(d: int) -> char {
    if d == 0 {
        '0'
    } else if d == 1 {
        '1'
    } else if d == 2 {
        '2'
    } else if d == 3 {
        '3'
    } else if d == 4 {
        '4'
    } else if d == 5 {
        '5'
    } else if d == 6 {
        '6'
    } else if d == 7 {
        '7'
    } else if d == 8 {
        '8'
    } else {
        '9'
    }
}

/// The value of a decimal digit character, or -1 for any other character.
pub open spec fn spec_char_val(c: char) -> int {
    if c == '0' {
        0
    } else if c == '1' {
        1
    } else if c == '2' {
        2
    } else if c == '3' {
        3
    } else if c == '4' {
        4
    } else if c == '5' {
        5
    } else if c == '6' {
        6
    } else if c == '7' {
        7
    } else if c == '8' {
        8
    } else if c == '9' {
        9
    } else {
        -1
    }
}

pub open spec fn is_digit_char(c: char) -> bool {
    spec_char_val(c) >= 0
}

pub open spec fn digits_only(s: Seq<char>) -> bool {
    forall|i: int| 0 <= i < s.len() ==> is_digit_char(#[trigger] s[i])
}

/// The canonical decimal numeral of `v`: no sign, no leading zero except for
/// the single digit of zero itself.
pub open spec fn spec_digits(v: int) -> Seq<char>
    recommends
        v >= 0,
    decreases v,
{
    if v < 10 {
        seq![spec_digit_char(v)]
    } else {
        spec_digits(v / 10).push(spec_digit_char(v % 10))
    }
}

/// The number a digit string denotes (most significant digit first).
pub open spec fn spec_num_val(s: Seq<char>) -> int
    decreases s.len(),
{
    if s.len() == 0 {
        0
    } else {
        spec_num_val(s.drop_last()) * 10 + spec_char_val(s.last())
    }
}

pub proof fn lemma_num_val_nonneg(s: Seq<char>)
    requires
        digits_only(s),
    ensures
        spec_num_val(s) >= 0,
    decreases s.len(),
{
    if s.len() > 0 {
        assert(digits_only(s.drop_last()));
        lemma_num_val_nonneg(s.drop_last());
    }
}

/// The numeral of `v` is a nonempty digit string without a leading zero
/// (unless it is `0` itself), and it denotes `v`.
pub proof fn lemma_digits_props(v: int)
    requires
        v >= 0,
    ensures
        spec_digits(v).len() >= 1,
        digits_only(spec_digits(v)),
        spec_num_val(spec_digits(v)) == v,
        spec_digits(v)[0] == '0' ==> v == 0,
        v < 10 ==> spec_digits(v).len() == 1,
    decreases v,
{
    if v < 10 {
        let s = spec_digits(v);
        assert(s =~= seq![spec_digit_char(v)]);
        assert(s.drop_last() =~= Seq::<char>::empty());
        assert(s.last() == spec_digit_char(v));
        assert(spec_num_val(s.drop_last()) == 0);
        assert(spec_char_val(spec_digit_char(v)) == v);
    } else {
        lemma_digits_props(v / 10);
        let pre = spec_digits(v / 10);
        let whole = pre.push(spec_digit_char(v % 10));
        assert(whole.drop_last() =~= pre);
        assert(whole.last() == spec_digit_char(v % 10));
        assert(spec_char_val(spec_digit_char(v % 10)) == v % 10);
        assert(spec_num_val(whole) == (v / 10) * 10 + v % 10);
        assert(whole[0] == pre[0]);
    }
}

/// Extending a digit string to the right never shrinks its value.
pub proof fn lemma_num_val_prefix(s: Seq<char>, k: int)
    requires
        digits_only(s),
        0 <= k <= s.len(),
    ensures
        spec_num_val(s.take(k)) <= spec_num_val(s),
    decreases s.len(),
{
    if k < s.len() {
        let t = s.drop_last();
        assert(digits_only(t));
        assert(s.take(k) =~= t.take(k));
        lemma_num_val_prefix(t, k);
        lemma_num_val_nonneg(t);
        assert(spec_num_val(s) == spec_num_val(t) * 10 + spec_char_val(s.last()));
        assert(spec_char_val(s.last()) >= 0);
    } else {
        assert(s.take(k) =~= s);
    }
}

pub proof fn lemma_digit_char_of_val(c: char)
    requires
        is_digit_char(c),
    ensures
        spec_digit_char(spec_char_val(c)) == c,
{
}

pub proof fn lemma_num_val_pos(x: Seq<char>)
    requires
        digits_only(x),
        x.len() >= 1,
        spec_char_val(x[0]) >= 1,
    ensures
        spec_num_val(x) >= 1,
    decreases x.len(),
{
    if x.len() == 1 {
        assert(x.last() == x[0]);
        assert(x.drop_last() =~= Seq::<char>::empty());
        assert(spec_num_val(x.drop_last()) == 0);
        assert(spec_num_val(x) == spec_char_val(x[0]));
    } else {
        let y = x.drop_last();
        assert(y[0] == x[0]);
        assert(digits_only(y));
        lemma_num_val_pos(y);
        assert(spec_char_val(x.last()) >= 0);
        assert(spec_num_val(x) == spec_num_val(y) * 10 + spec_char_val(x.last()));
        assert(spec_num_val(y) * 10 >= 10);
    }
}

/// A nonempty digit string without a leading zero is the canonical numeral
/// of its own value: canonical numerals are unique.
pub proof fn lemma_canonical_digits(x: Seq<char>)
    requires
        digits_only(x),
        x.len() >= 1,
        x[0] != '0' || x.len() == 1,
    ensures
        spec_num_val(x) >= 0,
        spec_digits(spec_num_val(x)) == x,
    decreases x.len(),
{
    lemma_num_val_nonneg(x);
    let v = spec_num_val(x);
    if x.len() == 1 {
        assert(x.drop_last() =~= Seq::<char>::empty());
        assert(x.last() == x[0]);
        assert(spec_num_val(x.drop_last()) == 0);
        assert(v == spec_char_val(x[0]));
        assert(v < 10);
        lemma_digit_char_of_val(x[0]);
        assert(spec_digits(v) =~= x);
    } else {
        let y = x.drop_last();
        assert(y[0] == x[0]);
        assert(digits_only(y));
        assert(spec_char_val(x[0]) >= 1);
        lemma_num_val_pos(y);
        lemma_num_val_nonneg(y);
        assert(spec_char_val(x.last()) >= 0);
        assert(v == spec_num_val(y) * 10 + spec_char_val(x.last()));
        assert(v >= 10);
        lemma_canonical_digits(y);
        assert(v / 10 == spec_num_val(y));
        assert(v % 10 == spec_char_val(x.last()));
        lemma_digit_char_of_val(x.last());
        assert(spec_digits(v) == spec_digits(v / 10).push(spec_digit_char(v % 10)));
        assert(spec_digits(v) =~= x);
    }
}

/// The digit value of a character, `None` where it is no decimal digit.
pub fn char_val(c: char) -> (r: Option<u8>)
    ensures
        r is Some <==> is_digit_char(c),
        r is Some ==> r.unwrap() as int == spec_char_val(c),
{
    if c == '0' {
        Some(0)
    } else if c == '1' {
        Some(1)
    } else if c == '2' {
        Some(2)
    } else if c == '3' {
        Some(3)
    } else if c == '4' {
        Some(4)
    } else if c == '5' {
        Some(5)
    } else if c == '6' {
        Some(6)
    } else if c == '7' {
        Some(7)
    } else if c == '8' {
        Some(8)
    } else if c == '9' {
        Some(9)
    } else {
        None
    }
}

pub fn digit_str(d: u8) -> (r: &'static str)
    requires
        d < 10,
    ensures
        r@ == seq![spec_digit_char(d as int)],
{
    if d == 0 {
        proof {
            reveal_strlit("0");
            assert("0"@ =~= seq![spec_digit_char(0)]);
        }
        "0"
    } else if d == 1 {
        proof {
            reveal_strlit("1");
            assert("1"@ =~= seq![spec_digit_char(1)]);
        }
        "1"
    } else if d == 2 {
        proof {
            reveal_strlit("2");
            assert("2"@ =~= seq![spec_digit_char(2)]);
        }
        "2"
    } else if d == 3 {
        proof {
            reveal_strlit("3");
            assert("3"@ =~= seq![spec_digit_char(3)]);
        }
        "3"
    } else if d == 4 {
        proof {
            reveal_strlit("4");
            assert("4"@ =~= seq![spec_digit_char(4)]);
        }
        "4"
    } else if d == 5 {
        proof {
            reveal_strlit("5");
            assert("5"@ =~= seq![spec_digit_char(5)]);
        }
        "5"
    } else if d == 6 {
        proof {
            reveal_strlit("6");
            assert("6"@ =~= seq![spec_digit_char(6)]);
        }
        "6"
    } else if d == 7 {
        proof {
            reveal_strlit("7");
            assert("7"@ =~= seq![spec_digit_char(7)]);
        }
        "7"
    } else if d == 8 {
        proof {
            reveal_strlit("8");
            assert("8"@ =~= seq![spec_digit_char(8)]);
        }
        "8"
    } else {
        proof {
            reveal_strlit("9");
            assert("9"@ =~= seq![spec_digit_char(9)]);
        }
        "9"
    }
}

/// Renders `v` as its canonical decimal numeral.
pub fn u64_to_string(v: u64) -> (r: String)
    ensures
        r@ == spec_digits(v as int),
    decreases v,
{
    if v < 10 {
        let r = String::from_str(digit_str(v as u8));
        proof {
            assert(r@ =~= spec_digits(v as int));
        }
        r
    } else {
        let hi = u64_to_string(v / 10);
        let r = hi.concat(digit_str((v % 10) as u8));
        proof {
            assert(r@ =~= spec_digits(v as int));
        }
        r
    }
}

/// What a whole numeric field denotes: a canonical numeral that fits in
/// `u64`, and nothing else.
pub open spec fn spec_parse_nat(s: Seq<char>) -> Option<u64> {
    if s.len() >= 1 && digits_only(s) && (s[0] != '0' || s.len() == 1) && spec_num_val(s)
        <= u64::MAX {
        Some(spec_num_val(s) as u64)
    } else {
        None
    }
}

/// Parses a whole field as a non-negative integer.
pub fn parse_nat_field(f: &str) -> (r: Option<u64>)
    ensures
        r == spec_parse_nat(f@),
{
    let n = f.unicode_len();
    if n == 0 {
        return None;
    }
    if n > 1 && f.get_char(0) == '0' {
        return None;
    }
    let mut val: u64 = 0;
    let mut i: usize = 0;
    while i < n
        invariant
            n == f@.len(),
            0 <= i <= n,
            n >= 1,
            n > 1 ==> f@[0] != '0',
            digits_only(f@.take(i as int)),
            val as int == spec_num_val(f@.take(i as int)),
        decreases n - i,
    {
        let c = f.get_char(i);
        match char_val(c) {
            None => {
                proof {
                    assert(!is_digit_char(f@[i as int]));
                    assert(!digits_only(f@));
                }
                return None;
            },
            Some(d) => {
                proof {
                    assert(f@.take(i + 1).drop_last() =~= f@.take(i as int));
                    assert(f@.take(i + 1).last() == f@[i as int]);
                }
                if val > (u64::MAX - d as u64) / 10 {
                    proof {
                        assert(spec_num_val(f@.take(i + 1)) == val as int * 10 + d as int);
                        assert(val as int * 10 + d as int > u64::MAX) by {
                            assert(val as int > (u64::MAX - d as int) / 10);
                        };
                        if digits_only(f@) {
                            lemma_num_val_prefix(f@, i + 1);
                        }
                    }
                    return None;
                }
                proof {
                    assert(val * 10 <= ((u64::MAX - d as u64) / 10) * 10 <= u64::MAX - d as u64);
                }
                val = val * 10 + d as u64;
                i = i + 1;
            },
        }
    }
    proof {
        assert(f@.take(n as int) =~= f@);
        lemma_num_val_nonneg(f@);
    }
    Some(val)
}

} // verus!
