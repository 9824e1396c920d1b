//! Slot numbers as decimal text.

use vstd::prelude::*;
use vstd::string::StrSliceExecFns;

verus! {

/// The character of the decimal digit `d`.
pub open spec fn digit_char(d: nat) -> char {
    if d == 0 {
        '0'
    } else if d == 1 {
        '1'
    } else if d == 2 {
        '2'
    } else if d == 3 {
        '3'
    } else if d == 4 {
        '4'
    } else if d == 5 {
        '5'
    } else if d == 6 {
        '6'
    } else if d == 7 {
        '7'
    } else if d == 8 {
        '8'
    } else {
        '9'
    }
}

/// The digit that `c` writes, if it writes one.
pub open spec fn digit_value(c: char) -> Option<nat> {
    if c == '0' {
        Some(0)
    } else if c == '1' {
        Some(1)
    } else if c == '2' {
        Some(2)
    } else if c == '3' {
        Some(3)
    } else if c == '4' {
        Some(4)
    } else if c == '5' {
        Some(5)
    } else if c == '6' {
        Some(6)
    } else if c == '7' {
        Some(7)
    } else if c == '8' {
        Some(8)
    } else if c == '9' {
        Some(9)
    } else {
        None
    }
}

/// The decimal text of `n`: its digits from the highest, without sign and
/// without leading zeros.
pub open spec fn decimal_text(n: nat) -> Seq<char>
    decreases n,
{
    if n < 10 {
        seq![digit_char(n)]
    } else {
        decimal_text(n / 10).push(digit_char(n % 10))
    }
}

/// The decimal text of `n` as bytes, one for each digit.
pub open spec fn decimal_bytes(n: nat) -> Seq<u8> {
    decimal_text(n).map_values(|c: char| c as u8)
}

/// The number that a run of digits writes.
pub open spec fn digits_value(s: Seq<char>) -> nat
    decreases s.len(),
{
    if s.len() == 0 {
        0
    } else {
        digits_value(s.drop_last()) * 10 + match digit_value(s.last()) {
            Some(d) => d,
            None => 0,
        }
    }
}

/// Every character of `s` is a digit.
pub open spec fn all_digits(s: Seq<char>) -> bool {
    forall|i: int| 0 <= i < s.len() ==> digit_value(#[trigger] s[i]) is Some
}

/// `s` is the text of a number: digits, at least one, and no zero in front
/// of another digit.
pub open spec fn canonical(s: Seq<char>) -> bool {
    &&& s.len() > 0
    &&& all_digits(s)
    &&& s.len() > 1 ==> s[0] != '0'
}

/// The text of a number is canonical and writes that number.
pub proof fn lemma_decimal_text(n: nat)
    ensures
        canonical(decimal_text(n)),
        digits_value(decimal_text(n)) == n,
    decreases n,
{
    if n < 10 {
        let s = seq![digit_char(n)];
        assert(s.drop_last() =~= Seq::<char>::empty());
        assert(digits_value(s.drop_last()) == 0);
        assert(s.last() == digit_char(n));
    } else {
        let head = decimal_text(n / 10);
        lemma_decimal_text(n / 10);
        let s = head.push(digit_char(n % 10));
        assert(s.drop_last() =~= head);
        assert(s.last() == digit_char(n % 10));
        assert(s[0] == head[0]);
        if head.len() == 1 {
            assert(head.drop_last() =~= Seq::<char>::empty());
            assert(digits_value(head.drop_last()) == 0);
            assert(head.last() == head[0]);
        }
        assert forall|i: int| 0 <= i < s.len() implies digit_value(#[trigger] s[i]) is Some by {
            if i < head.len() {
                assert(s[i] == head[i]);
            }
        }
    }
}

/// A run of digits writes at least what any of its beginnings writes.
proof fn lemma_prefix_value(s: Seq<char>, j: int)
    requires
        0 <= j <= s.len(),
    ensures
        digits_value(s.subrange(0, j)) <= digits_value(s),
    decreases s.len(),
{
    if j == s.len() {
        assert(s.subrange(0, j) =~= s);
    } else {
        lemma_prefix_value(s.drop_last(), j);
        assert(s.drop_last().subrange(0, j) =~= s.subrange(0, j));
    }
}

/// A canonical text is the text of the number that it writes.
pub proof fn lemma_canonical_text(s: Seq<char>)
    requires
        canonical(s),
    ensures
        decimal_text(digits_value(s)) == s,
        s[0] != '0' ==> digits_value(s) >= 1,
    decreases s.len(),
{
    let head = s.drop_last();
    if s.len() == 1 {
        assert(head =~= Seq::<char>::empty());
        assert(digits_value(head) == 0);
        assert(digit_value(s[0]) is Some);
        assert(decimal_text(digits_value(s)) =~= s);
    } else {
        assert(head[0] == s[0]);
        assert forall|i: int| 0 <= i < head.len() implies digit_value(#[trigger] head[i]) is Some by {
            assert(head[i] == s[i]);
        }
        lemma_canonical_text(head);
        assert(digit_value(s[s.len() - 1]) is Some);
        let d = digit_value(s.last()).unwrap();
        let n = digits_value(s);
        assert(n == digits_value(head) * 10 + d);
        assert(n / 10 == digits_value(head));
        assert(n % 10 == d);
        assert(decimal_text(n) =~= s);
    }
}

/// The slot number that `text` writes, where it is the text of one.
pub open spec fn text_slot(text: Seq<char>) -> Option<u64> {
    if canonical(text) && digits_value(text) <= u64::MAX {
        Some(digits_value(text) as u64)
    } else {
        None
    }
}

/// The digit that `c` writes, if it writes one.
pub fn digit_of(c: char) -> (r: Option<u64>)
    ensures
        match r {
            Some(d) => digit_value(c) == Some(d as nat),
            None => digit_value(c) is None,
        },
{
    if c == '0' {
        Some(0)
    } else if c == '1' {
        Some(1)
    } else if c == '2' {
        Some(2)
    } else if c == '3' {
        Some(3)
    } else if c == '4' {
        Some(4)
    } else if c == '5' {
        Some(5)
    } else if c == '6' {
        Some(6)
    } else if c == '7' {
        Some(7)
    } else if c == '8' {
        Some(8)
    } else if c == '9' {
        Some(9)
    } else {
        None
    }
}

/// Reads a slot number from its decimal text. Only the text that writing
/// the number gives is accepted: digits alone, no leading zeros, and a
/// value that fits.
pub fn parse_decimal(text: &str) -> (r: Option<u64>)
    ensures
        r == text_slot(text@),
        match r {
            Some(n) => text@ == decimal_text(n as nat),
            None => forall|n: u64| text@ != decimal_text(n as nat),
        },
{
    let len = text.unicode_len();
    let mut acc: u64 = 0;
    let mut i: usize = 0;
    while i < len
        invariant
            len == text@.len(),
            i <= len,
            all_digits(text@.subrange(0, i as int)),
            acc == digits_value(text@.subrange(0, i as int)),
            i > 1 ==> text@[0] != '0',
        decreases len - i,
    {
        let c = text.get_char(i);
        let ghost done = text@.subrange(0, i as int);
        let ghost next = text@.subrange(0, i + 1);
        proof {
            assert(next.drop_last() =~= done);
            assert(next.last() == c);
        }
        let d = match digit_of(c) {
            Some(d) => d,
            None => {
                proof {
                    assert(digit_value(text@[i as int]) is None);
                    assert forall|n: u64| text@ != decimal_text(n as nat) by {
                        lemma_decimal_text(n as nat);
                    }
                }
                return None;
            },
        };
        proof {
            if i == 1 {
                assert(done.drop_last() =~= Seq::<char>::empty());
                assert(digits_value(done.drop_last()) == 0);
                assert(done.last() == text@[0]);
                assert(digit_value(done[0]) is Some);
                assert(acc == 0 <==> text@[0] == '0');
            }
        }
        if i == 1 && acc == 0 {
            proof {
                assert forall|n: u64| text@ != decimal_text(n as nat) by {
                    lemma_decimal_text(n as nat);
                }
            }
            return None;
        }
        if acc > 1844674407370955161 || (acc == 1844674407370955161 && d > 5) {
            proof {
                assert(digits_value(next) > u64::MAX);
                lemma_prefix_value(text@, i + 1);
                assert forall|n: u64| text@ != decimal_text(n as nat) by {
                    lemma_decimal_text(n as nat);
                }
            }
            return None;
        }
        acc = acc * 10 + d;
        proof {
            assert forall|j: int| 0 <= j < next.len() implies digit_value(#[trigger] next[j]) is Some by {
                if j < i {
                    assert(next[j] == done[j]);
                }
            }
        }
        i += 1;
    }
    proof {
        assert(text@.subrange(0, len as int) =~= text@);
    }
    if len == 0 {
        proof {
            assert forall|n: u64| text@ != decimal_text(n as nat) by {
                lemma_decimal_text(n as nat);
            }
        }
        return None;
    }
    proof {
        lemma_canonical_text(text@);
    }
    Some(acc)
}

} // verus!
