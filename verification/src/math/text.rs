use crate::math::fixed::Fixed;
use crate::math::matrix::Matrix;
use crate::math::vector::Vecf;
use crate::math::vector::Veci;
use vstd::prelude::*;
use vstd::string::StringExecFns;

verus! {

/// The character of a decimal digit.
pub open spec fn digit(d: int) -> char {
    if d == 0 {
        '0'
    } else if d == 1 {
        '1'
    } else if d == 2 {
        '2'
    } else if d == 3 {
        '3'
    } else if d == 4 {
        '4'
    } else if d == 5 {
        '5'
    } else if d == 6 {
        '6'
    } else if d == 7 {
        '7'
    } else if d == 8 {
        '8'
    } else {
        '9'
    }
}

/// The decimal digits of a natural number, without leading zeros.
pub open spec fn decimal(n: int) -> Seq<char>
    decreases n,
{
    if n < 10 {
        seq![digit(n)]
    } else {
        decimal(n / 10) + seq![digit(n % 10)]
    }
}

/// A whole number in decimal, with a minus sign where it is negative.
pub open spec fn signed_decimal(v: int) -> Seq<char> {
    if v < 0 {
        seq!['-'] + decimal(-v)
    } else {
        decimal(v)
    }
}

/// How many hundredths a raw magnitude is, rounded to the nearest and to
/// the even one in a tie.
pub open spec fn hundredths(mag: int) -> int {
    let q = (mag * 100) / 65536;
    let r = (mag * 100) % 65536;
    if r > 32768 || (r == 32768 && q % 2 == 1) {
        q + 1
    } else {
        q
    }
}

/// A raw fixed-point value with two decimal places, with a minus sign where
/// it is negative.
pub open spec fn fixed_text(raw: int) -> Seq<char> {
    let h = hundredths(if raw < 0 { -raw } else { raw });
    (if raw < 0 { seq!['-'] } else { Seq::<char>::empty() }) + decimal(h / 100) + seq![
        '.',
        digit(h % 100 / 10),
        digit(h % 10),
    ]
}

/// The texts between square brackets, a comma and a space between each two.
pub open spec fn listed(parts: Seq<Seq<char>>) -> Seq<char> {
    seq!['['] + joined(parts, parts.len() as int) + seq![']']
}

/// The first `n` texts, a comma and a space between each two.
pub open spec fn joined(parts: Seq<Seq<char>>, n: int) -> Seq<char>
    decreases n,
{
    if n <= 0 {
        Seq::<char>::empty()
    } else if n == 1 {
        parts[0]
    } else {
        joined(parts, n - 1) + seq![',', ' '] + parts[n - 1]
    }
}

/// The first texts with one more are the first texts, then a comma and a
/// space unless they are none, then the one more.
pub proof fn lemma_joined_step(parts: Seq<Seq<char>>, n: int)
    requires
        0 <= n,
    ensures
        joined(parts, n + 1) == if n == 0 {
            parts[0]
        } else {
            joined(parts, n) + seq![',', ' '] + parts[n]
        },
{
}

/// One decimal digit as a text.
fn digit_str(d: u64) -> (r: &'static str)
    requires
        d < 10,
    ensures
        r@ == seq![digit(d as int)],
{
    proof {
        reveal_strlit("0");
        reveal_strlit("1");
        reveal_strlit("2");
        reveal_strlit("3");
        reveal_strlit("4");
        reveal_strlit("5");
        reveal_strlit("6");
        reveal_strlit("7");
        reveal_strlit("8");
        reveal_strlit("9");
    }
    let r: &'static str = if d == 0 {
        "0"
    } else if d == 1 {
        "1"
    } else if d == 2 {
        "2"
    } else if d == 3 {
        "3"
    } else if d == 4 {
        "4"
    } else if d == 5 {
        "5"
    } else if d == 6 {
        "6"
    } else if d == 7 {
        "7"
    } else if d == 8 {
        "8"
    } else {
        "9"
    };
    assert(r@ =~= seq![digit(d as int)]);
    r
}

/// A natural number in decimal.
pub fn decimal_text(n: u64) -> (r: String)
    ensures
        r@ == decimal(n as int),
    decreases n,
{
    if n < 10 {
        String::from_str(digit_str(n))
    } else {
        decimal_text(n / 10).concat(digit_str(n % 10))
    }
}

/// A whole number in decimal.
pub fn integer_text(v: i32) -> (r: String)
    ensures
        r@ == signed_decimal(v as int),
{
    if v < 0 {
        proof {
            reveal_strlit("-");
        }
        let digits: String = decimal_text((-(v as i64)) as u64);
        let r: String = String::from_str("-").concat(digits.as_str());
        assert(r@ =~= signed_decimal(v as int));
        r
    } else {
        decimal_text(v as u64)
    }
}

impl Fixed {
    /// The value with two decimal places.
    pub fn to_text(&self) -> (r: String)
        ensures
            r@ == fixed_text(self.0 as int),
    {
        let mag: u64 = if self.0 < 0 { (-(self.0 as i64)) as u64 } else { self.0 as u64 };
        let q: u64 = mag * 100 / 65536;
        let rest: u64 = mag * 100 % 65536;
        let h: u64 = if rest > 32768 || (rest == 32768 && q % 2 == 1) { q + 1 } else { q };
        proof {
            reveal_strlit("-");
            reveal_strlit("");
            reveal_strlit(".");
        }
        let sign: &str = if self.0 < 0 { "-" } else { "" };
        let r: String = String::from_str(sign).concat(decimal_text(h / 100).as_str()).concat(
            ".",
        ).concat(digit_str(h % 100 / 10)).concat(digit_str(h % 10));
        assert(r@ =~= fixed_text(self.0 as int));
        r
    }
}

impl<const N: usize> Veci<N> {
    /// The components in decimal between square brackets.
    pub fn to_text(&self) -> (r: String)
        ensures
            r@ == listed(Seq::new(N as nat, |i: int| signed_decimal(self.0[i] as int))),
    {
        let ghost parts = Seq::new(N as nat, |i: int| signed_decimal(self.0[i] as int));
        proof {
            reveal_strlit("[");
            reveal_strlit("]");
            reveal_strlit(", ");
        }
        let mut r: String = String::from_str("[");
        let mut i: usize = 0;
        while i < N
            invariant
                i <= N,
                parts == Seq::new(N as nat, |i: int| signed_decimal(self.0[i] as int)),
                r@ == seq!['['] + joined(parts, i as int),
            decreases N - i,
        {
            let ghost so_far = joined(parts, i as int);
            if i > 0 {
                r = r.concat(", ");
                proof {
                    reveal_strlit(", ");
                }
                assert(", "@ =~= seq![',', ' ']);
            }
            r = r.concat(integer_text(self.0[i]).as_str());
            proof {
                lemma_joined_step(parts, i as int);
                if i > 0 {
                    assert(r@ =~= seq!['['] + (so_far + seq![',', ' '] + parts[i as int]));
                } else {
                    assert(r@ =~= seq!['['] + parts[0]);
                }
            }
            i += 1;
        }
        r.concat("]")
    }
}

impl<const N: usize> Vecf<N> {
    /// The components with two decimal places between square brackets.
    pub fn to_text(&self) -> (r: String)
        ensures
            r@ == listed(Seq::new(N as nat, |i: int| fixed_text(self.0[i].0 as int))),
    {
        let ghost parts = Seq::new(N as nat, |i: int| fixed_text(self.0[i].0 as int));
        proof {
            reveal_strlit("[");
            reveal_strlit("]");
            reveal_strlit(", ");
        }
        let mut r: String = String::from_str("[");
        let mut i: usize = 0;
        while i < N
            invariant
                i <= N,
                parts == Seq::new(N as nat, |i: int| fixed_text(self.0[i].0 as int)),
                r@ == seq!['['] + joined(parts, i as int),
            decreases N - i,
        {
            let ghost so_far = joined(parts, i as int);
            if i > 0 {
                r = r.concat(", ");
                proof {
                    reveal_strlit(", ");
                }
                assert(", "@ =~= seq![',', ' ']);
            }
            r = r.concat(self.0[i].to_text().as_str());
            proof {
                lemma_joined_step(parts, i as int);
                if i > 0 {
                    assert(r@ =~= seq!['['] + (so_far + seq![',', ' '] + parts[i as int]));
                } else {
                    assert(r@ =~= seq!['['] + parts[0]);
                }
            }
            i += 1;
        }
        r.concat("]")
    }
}

impl<const M: usize, const N: usize> Matrix<M, N> {
    /// The text of row `i`.
    pub open spec fn row_text(self, i: int) -> Seq<char> {
        listed(Seq::new(N as nat, |j: int| fixed_text(self.0[i].0[j].0 as int)))
    }

    /// The rows, each as a vector is written, between square brackets.
    pub fn to_text(&self) -> (r: String)
        ensures
            r@ == listed(Seq::new(M as nat, |i: int| self.row_text(i))),
    {
        let ghost parts = Seq::new(M as nat, |i: int| self.row_text(i));
        proof {
            reveal_strlit("[");
            reveal_strlit("]");
            reveal_strlit(", ");
        }
        let mut r: String = String::from_str("[");
        let mut i: usize = 0;
        while i < M
            invariant
                i <= M,
                parts == Seq::new(M as nat, |i: int| self.row_text(i)),
                r@ == seq!['['] + joined(parts, i as int),
            decreases M - i,
        {
            let ghost so_far = joined(parts, i as int);
            if i > 0 {
                r = r.concat(", ");
                proof {
                    reveal_strlit(", ");
                }
                assert(", "@ =~= seq![',', ' ']);
            }
            r = r.concat(self.0[i].to_text().as_str());
            proof {
                lemma_joined_step(parts, i as int);
                if i > 0 {
                    assert(r@ =~= seq!['['] + (so_far + seq![',', ' '] + parts[i as int]));
                } else {
                    assert(r@ =~= seq!['['] + parts[0]);
                }
            }
            i += 1;
        }
        r.concat("]")
    }
}

} // verus!
